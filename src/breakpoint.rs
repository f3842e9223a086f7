use vstd::prelude::*;
use vstd::string::StrSliceExecFns;
use crate::symbols::{SymbolTable, named_function, line_row};

verus! {

/// The value of `c` as a digit in base `radix` (10 or 16), if it is one.
pub open spec fn digit_value(c: char, radix: int) -> Option<int> {
    if '0' <= c && c <= '9' && (c as int) - ('0' as int) < radix {
        Some((c as int) - ('0' as int))
    } else if radix == 16 && 'a' <= c && c <= 'f' {
        Some((c as int) - ('a' as int) + 10)
    } else if radix == 16 && 'A' <= c && c <= 'F' {
        Some((c as int) - ('A' as int) + 10)
    } else {
        None
    }
}

pub open spec fn all_digits(s: Seq<char>, radix: int) -> bool {
    forall|i: int| 0 <= i < s.len() ==> (#[trigger] digit_value(s[i], radix)) is Some
}

/// The number that a string of digits denotes in base `radix`.
pub open spec fn digits_value(s: Seq<char>, radix: int) -> int
    decreases s.len(),
{
    if s.len() == 0 {
        0
    } else {
        digits_value(s.drop_last(), radix) * radix + digit_value(s.last(), radix)->0
    }
}

/// An unsigned machine-word number written in base `radix`, with an
/// optional leading `+`: at least one digit, nothing else, and a value
/// that fits in a `usize`.
pub open spec fn parse_unsigned(s: Seq<char>, radix: int) -> Option<int> {
    let body = if s.len() > 0 && s[0] == '+' {
        s.drop_first()
    } else {
        s
    };
    if body.len() > 0 && all_digits(body, radix) && digits_value(body, radix) <= usize::MAX {
        Some(digits_value(body, radix))
    } else {
        None
    }
}

/// A hexadecimal address, with or without a `0x` / `0X` prefix.
pub open spec fn hex_address(s: Seq<char>) -> Option<int> {
    if s.len() >= 2 && s[0] == '0' && (s[1] == 'x' || s[1] == 'X') {
        parse_unsigned(s.subrange(2, s.len() as int), 16)
    } else {
        parse_unsigned(s, 16)
    }
}

/// Where a breakpoint written as `token` goes: `*<hex address>` is taken
/// literally; otherwise a function name, and failing that a line number.
pub open spec fn breakpoint_target(t: SymbolTable, token: Seq<char>) -> Option<int> {
    if token.len() > 0 && token[0] == '*' {
        hex_address(token.drop_first())
    } else if named_function(t.functions@, token) is Some {
        Some(t.functions@[named_function(t.functions@, token)->0].low as int)
    } else {
        match parse_unsigned(token, 10) {
            Some(n) => match line_row(t.lines@, n) {
                Some(i) => Some(t.lines@[i].address as int),
                None => None,
            },
            None => None,
        }
    }
}

proof fn lemma_all_digits_prefix(s: Seq<char>, radix: int, k: int)
    requires
        0 <= k <= s.len(),
        all_digits(s, radix),
    ensures
        all_digits(s.subrange(0, k), radix),
{
    assert forall|i: int| 0 <= i < k implies (#[trigger] digit_value(
        s.subrange(0, k)[i],
        radix,
    )) is Some by {
        assert(s.subrange(0, k)[i] == s[i]);
    }
}

proof fn lemma_digits_value_grows(s: Seq<char>, radix: int, k: int)
    requires
        radix >= 1,
        0 <= k <= s.len(),
        all_digits(s, radix),
    ensures
        digits_value(s.subrange(0, k), radix) <= digits_value(s, radix),
    decreases s.len(),
{
    if k == s.len() {
        assert(s.subrange(0, k) =~= s);
    } else {
        let t = s.drop_last();
        lemma_all_digits_prefix(s, radix, s.len() - 1);
        assert(s.subrange(0, s.len() - 1) =~= t);
        lemma_digits_value_grows(t, radix, k);
        assert(t.subrange(0, k) =~= s.subrange(0, k));
        lemma_digits_value_nonneg(t, radix);
        assert(digit_value(s[s.len() - 1], radix) is Some);
        assert(digits_value(t, radix) * radix >= digits_value(t, radix)) by (nonlinear_arith)
            requires
                radix >= 1,
                digits_value(t, radix) >= 0,
        ;
    }
}

proof fn lemma_digits_value_nonneg(s: Seq<char>, radix: int)
    requires
        radix >= 1,
        all_digits(s, radix),
    ensures
        digits_value(s, radix) >= 0,
    decreases s.len(),
{
    if s.len() > 0 {
        assert(all_digits(s.drop_last(), radix)) by {
            assert forall|i: int| 0 <= i < s.drop_last().len() implies (#[trigger] digit_value(
                s.drop_last()[i],
                radix,
            )) is Some by {
                assert(s.drop_last()[i] == s[i]);
            }
        }
        lemma_digits_value_nonneg(s.drop_last(), radix);
        assert(digit_value(s[s.len() - 1], radix) is Some);
        assert(digits_value(s.drop_last(), radix) * radix >= 0) by (nonlinear_arith)
            requires
                radix >= 1,
                digits_value(s.drop_last(), radix) >= 0,
        ;
    }
}

/// The digit value of `c` in base `radix`.
fn digit_of(c: char, radix: u32) -> (r: Option<usize>)
    requires
        radix == 10 || radix == 16,
    ensures
        r matches Some(d) ==> digit_value(c, radix as int) == Some(d as int) && d < 16,
        r is None ==> digit_value(c, radix as int) is None,
{
    if '0' <= c && c <= '9' && (c as u32) - ('0' as u32) < radix {
        Some(((c as u32) - ('0' as u32)) as usize)
    } else if radix == 16 && 'a' <= c && c <= 'f' {
        Some(((c as u32) - ('a' as u32) + 10) as usize)
    } else if radix == 16 && 'A' <= c && c <= 'F' {
        Some(((c as u32) - ('A' as u32) + 10) as usize)
    } else {
        None
    }
}

/// Parses an unsigned number in base 10 or 16, rejecting empty input, any
/// character that is not a digit, and values that do not fit in a `usize`.
pub fn parse_unsigned_in(s: &str, radix: u32) -> (r: Option<usize>)
    requires
        radix == 10 || radix == 16,
    ensures
        r matches Some(v) ==> parse_unsigned(s@, radix as int) == Some(v as int),
        r is None ==> parse_unsigned(s@, radix as int) is None,
{
    let n = s.unicode_len();
    let start: usize = if n > 0 && s.get_char(0) == '+' {
        1
    } else {
        0
    };
    let ghost body = if s@.len() > 0 && s@[0] == '+' {
        s@.drop_first()
    } else {
        s@
    };
    assert(body =~= s@.subrange(start as int, n as int));
    if start == n {
        return None;
    }
    let mut acc: usize = 0;
    let mut i: usize = start;
    while i < n
        invariant
            start <= i <= n,
            n == s@.len(),
            radix == 10 || radix == 16,
            body =~= s@.subrange(start as int, n as int),
            body == (if s@.len() > 0 && s@[0] == '+' {
                s@.drop_first()
            } else {
                s@
            }),
            all_digits(body.subrange(0, i - start), radix as int),
            acc as int == digits_value(body.subrange(0, i - start), radix as int),
        decreases n - i,
    {
        let c = s.get_char(i);
        let ghost pre = body.subrange(0, i - start);
        let ghost next = body.subrange(0, i + 1 - start);
        assert(next.drop_last() =~= pre);
        assert(next.last() == c);
        match digit_of(c, radix) {
            None => {
                assert(!all_digits(body, radix as int)) by {
                    assert(body[i - start] == c);
                    assert(digit_value(body[i - start], radix as int) is None);
                }
                return None;
            },
            Some(d) => {
                assert(all_digits(next, radix as int)) by {
                    assert forall|j: int| 0 <= j < next.len() implies (#[trigger] digit_value(
                        next[j],
                        radix as int,
                    )) is Some by {
                        if j < pre.len() {
                            assert(next[j] == pre[j]);
                        }
                    }
                }
                let r = radix as usize;
                let grown = match acc.checked_mul(r) {
                    Some(m) => m.checked_add(d),
                    None => None,
                };
                match grown {
                    None => {
                        proof {
                            assert(acc * r + d > usize::MAX) by (nonlinear_arith)
                                requires
                                    acc * r > usize::MAX || acc * r + d > usize::MAX,
                            ;
                            assert(digits_value(next, radix as int) == acc * r + d);
                            if all_digits(body, radix as int) {
                                lemma_digits_value_grows(body, radix as int, i + 1 - start);
                            }
                        }
                        return None;
                    },
                    Some(v) => {
                        acc = v;
                    },
                }
            },
        }
        i += 1;
    }
    assert(body.subrange(0, n - start) =~= body);
    Some(acc)
}

/// Parses a hexadecimal address, with or without a `0x` / `0X` prefix.
pub fn parse_address(addr: &str) -> (r: Option<usize>)
    ensures
        r matches Some(a) ==> hex_address(addr@) == Some(a as int),
        r is None ==> hex_address(addr@) is None,
{
    let n = addr.unicode_len();
    if n >= 2 && addr.get_char(0) == '0' && (addr.get_char(1) == 'x' || addr.get_char(1) == 'X') {
        parse_unsigned_in(addr.substring_char(2, n), 16)
    } else {
        parse_unsigned_in(addr, 16)
    }
}

/// Resolves the argument of a `break` command to a code address: `*<hex>`
/// is an absolute address; otherwise the token names a function, and
/// failing that it is a source line number.
pub fn breakpoint_address(table: &SymbolTable, token: &str) -> (r: Option<usize>)
    ensures
        r matches Some(a) ==> breakpoint_target(*table, token@) == Some(a as int),
        r is None ==> breakpoint_target(*table, token@) is None,
{
    let n = token.unicode_len();
    if n > 0 && token.get_char(0) == '*' {
        let rest = token.substring_char(1, n);
        assert(rest@ =~= token@.drop_first());
        parse_address(rest)
    } else {
        match table.address_for_function(token) {
            Some(a) => Some(a),
            None => match parse_unsigned_in(token, 10) {
                Some(line) => table.address_for_line(line),
                None => None,
            },
        }
    }
}

} // verus!
