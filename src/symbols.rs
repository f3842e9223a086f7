use vstd::prelude::*;

verus! {

/// A function of the debugged program and the code addresses it spans.
pub struct FunctionInfo {
    pub name: String,
    /// First address of the function's code.
    pub low: usize,
    /// One past the last address of the function's code.
    pub high: usize,
}

/// One row of the line table: a source line and the first address of its code.
pub struct LineInfo {
    pub file: String,
    pub number: usize,
    pub address: usize,
}

/// The address-to-source lookups the debugger needs, built from the
/// program's debug information.
pub struct SymbolTable {
    pub functions: Vec<FunctionInfo>,
    pub lines: Vec<LineInfo>,
}

/// Index of the first function whose range holds `addr`, looking at the
/// first `n` functions only.
pub open spec fn function_index_upto(fs: Seq<FunctionInfo>, addr: int, n: int) -> Option<int>
    decreases n,
{
    if n <= 0 {
        None
    } else {
        match function_index_upto(fs, addr, n - 1) {
            Some(i) => Some(i),
            None => if fs[n - 1].low <= addr < fs[n - 1].high {
                Some(n - 1)
            } else {
                None
            },
        }
    }
}

/// Index of the first function whose range holds `addr`.
pub open spec fn function_index(fs: Seq<FunctionInfo>, addr: int) -> Option<int> {
    function_index_upto(fs, addr, fs.len() as int)
}

/// Index of the first function named `name`, among the first `n`.
pub open spec fn named_function_upto(fs: Seq<FunctionInfo>, name: Seq<char>, n: int) -> Option<int>
    decreases n,
{
    if n <= 0 {
        None
    } else {
        match named_function_upto(fs, name, n - 1) {
            Some(i) => Some(i),
            None => if fs[n - 1].name@ == name {
                Some(n - 1)
            } else {
                None
            },
        }
    }
}

/// Index of the first function named `name`.
pub open spec fn named_function(fs: Seq<FunctionInfo>, name: Seq<char>) -> Option<int> {
    named_function_upto(fs, name, fs.len() as int)
}

/// Index of the first line-table row for source line `number`, among the first `n`.
pub open spec fn line_row_upto(ls: Seq<LineInfo>, number: int, n: int) -> Option<int>
    decreases n,
{
    if n <= 0 {
        None
    } else {
        match line_row_upto(ls, number, n - 1) {
            Some(i) => Some(i),
            None => if ls[n - 1].number == number {
                Some(n - 1)
            } else {
                None
            },
        }
    }
}

/// Index of the first line-table row for source line `number`.
pub open spec fn line_row(ls: Seq<LineInfo>, number: int) -> Option<int> {
    line_row_upto(ls, number, ls.len() as int)
}

/// The row, among the first `n`, that covers `addr`: the one with the
/// greatest start address not above `addr`, the earliest such on a tie.
pub open spec fn covering_row_upto(ls: Seq<LineInfo>, addr: int, n: int) -> Option<int>
    decreases n,
{
    if n <= 0 {
        None
    } else {
        let prev = covering_row_upto(ls, addr, n - 1);
        let row = ls[n - 1];
        if row.address <= addr && (prev is None || ls[prev->0].address < row.address) {
            Some(n - 1)
        } else {
            prev
        }
    }
}

/// The line-table row that covers `addr`.
pub open spec fn covering_row(ls: Seq<LineInfo>, addr: int) -> Option<int> {
    covering_row_upto(ls, addr, ls.len() as int)
}

/// A first match found among the first `k` entries stays the first match
/// among any longer prefix.
proof fn lemma_function_index_stable(fs: Seq<FunctionInfo>, addr: int, k: int, m: int)
    requires
        0 <= k <= m,
        function_index_upto(fs, addr, k) is Some,
    ensures
        function_index_upto(fs, addr, m) == function_index_upto(fs, addr, k),
        0 <= function_index_upto(fs, addr, k)->0 < k,
    decreases m - k, k,
{
    if m > k {
        lemma_function_index_stable(fs, addr, k, m - 1);
    } else {
        if function_index_upto(fs, addr, k - 1) is Some {
            lemma_function_index_stable(fs, addr, k - 1, k - 1);
        }
    }
}

proof fn lemma_named_function_stable(fs: Seq<FunctionInfo>, name: Seq<char>, k: int, m: int)
    requires
        0 <= k <= m,
        named_function_upto(fs, name, k) is Some,
    ensures
        named_function_upto(fs, name, m) == named_function_upto(fs, name, k),
        0 <= named_function_upto(fs, name, k)->0 < k,
    decreases m - k, k,
{
    if m > k {
        lemma_named_function_stable(fs, name, k, m - 1);
    } else {
        if named_function_upto(fs, name, k - 1) is Some {
            lemma_named_function_stable(fs, name, k - 1, k - 1);
        }
    }
}

proof fn lemma_line_row_stable(ls: Seq<LineInfo>, number: int, k: int, m: int)
    requires
        0 <= k <= m,
        line_row_upto(ls, number, k) is Some,
    ensures
        line_row_upto(ls, number, m) == line_row_upto(ls, number, k),
        0 <= line_row_upto(ls, number, k)->0 < k,
    decreases m - k, k,
{
    if m > k {
        lemma_line_row_stable(ls, number, k, m - 1);
    } else {
        if line_row_upto(ls, number, k - 1) is Some {
            lemma_line_row_stable(ls, number, k - 1, k - 1);
        }
    }
}

impl SymbolTable {
    /// The index of the function whose code holds `addr`.
    pub fn function_index_for_address(&self, addr: usize) -> (r: Option<usize>)
        ensures
            r matches Some(i) ==> function_index(self.functions@, addr as int) == Some(i as int)
                && i < self.functions@.len(),
            r is None ==> function_index(self.functions@, addr as int) is None,
    {
        let mut i: usize = 0;
        while i < self.functions.len()
            invariant
                i <= self.functions.len(),
                function_index_upto(self.functions@, addr as int, i as int) is None,
            decreases self.functions.len() - i,
        {
            let f = &self.functions[i];
            if f.low <= addr && addr < f.high {
                proof {
                    lemma_function_index_stable(
                        self.functions@,
                        addr as int,
                        i + 1,
                        self.functions@.len() as int,
                    );
                }
                return Some(i);
            }
            i += 1;
        }
        None
    }

    /// The name of the function whose code holds `addr`.
    pub fn function_name_for_address(&self, addr: usize) -> (r: Option<String>)
        ensures
            r matches Some(s) ==> (function_index(self.functions@, addr as int) matches Some(i)
                && s@ == self.functions@[i].name@),
            r is None ==> function_index(self.functions@, addr as int) is None,
    {
        match self.function_index_for_address(addr) {
            Some(i) => Some(self.functions[i].name.clone()),
            None => None,
        }
    }

    /// The entry address of the first function named `name`.
    pub fn address_for_function(&self, name: &str) -> (r: Option<usize>)
        ensures
            r matches Some(a) ==> (named_function(self.functions@, name@) matches Some(i)
                && a == self.functions@[i].low),
            r is None ==> named_function(self.functions@, name@) is None,
    {
        let wanted = name.to_owned();
        let mut i: usize = 0;
        while i < self.functions.len()
            invariant
                i <= self.functions.len(),
                wanted@ == name@,
                named_function_upto(self.functions@, name@, i as int) is None,
            decreases self.functions.len() - i,
        {
            if self.functions[i].name == wanted {
                proof {
                    lemma_named_function_stable(
                        self.functions@,
                        name@,
                        i + 1,
                        self.functions@.len() as int,
                    );
                }
                return Some(self.functions[i].low);
            }
            i += 1;
        }
        None
    }

    /// The first address of the code of source line `number`.
    pub fn address_for_line(&self, number: usize) -> (r: Option<usize>)
        ensures
            r matches Some(a) ==> (line_row(self.lines@, number as int) matches Some(i) && a
                == self.lines@[i].address),
            r is None ==> line_row(self.lines@, number as int) is None,
    {
        let mut i: usize = 0;
        while i < self.lines.len()
            invariant
                i <= self.lines.len(),
                line_row_upto(self.lines@, number as int, i as int) is None,
            decreases self.lines.len() - i,
        {
            if self.lines[i].number == number {
                proof {
                    lemma_line_row_stable(self.lines@, number as int, i + 1, self.lines@.len() as int);
                }
                return Some(self.lines[i].address);
            }
            i += 1;
        }
        None
    }

    /// The index of the line-table row that covers `addr`.
    pub fn line_index_for_address(&self, addr: usize) -> (r: Option<usize>)
        ensures
            r matches Some(i) ==> covering_row(self.lines@, addr as int) == Some(i as int) && i
                < self.lines@.len(),
            r is None ==> covering_row(self.lines@, addr as int) is None,
    {
        let mut best: Option<usize> = None;
        let mut i: usize = 0;
        while i < self.lines.len()
            invariant
                i <= self.lines.len(),
                best matches Some(b) ==> covering_row_upto(self.lines@, addr as int, i as int)
                    == Some(b as int) && b < i,
                best is None ==> covering_row_upto(self.lines@, addr as int, i as int) is None,
            decreases self.lines.len() - i,
        {
            let a = self.lines[i].address;
            if a <= addr {
                match best {
                    None => {
                        best = Some(i);
                    },
                    Some(b) => {
                        if self.lines[b].address < a {
                            best = Some(i);
                        }
                    },
                }
            }
            i += 1;
        }
        best
    }
}

} // verus!
