use vstd::prelude::*;
use vstd::string::*;

verus! {

/// The number of built-in symbols.
pub const BUILTIN_COUNT: usize = 41;

/// The built-in symbol table, in address order.
pub open spec fn builtin_symbols() -> Seq<Seq<char>> {
    seq![
        "atom"@, "apply"@, "begin"@, "car"@, "cdr"@, "char"@, "commit"@, "comm"@, "bignum"@,
        "cons"@, "current-env"@, "emit"@, "empty-env"@, "eval"@, "eq"@, "eqq"@, "type-eq"@,
        "type-eqq"@, "hide"@, "if"@, "lambda"@, "let"@, "letrec"@, "u64"@, "open"@, "quote"@,
        "secret"@, "strcons"@, "list"@, "+"@, "-"@, "*"@, "/"@, "%"@, "="@, "<"@, ">"@, "<="@,
        ">="@, "breakpoint"@, "fail"@,
    ]
}

/// The first position at or after `i` where the table holds `name`.
pub open spec fn sym_index_from(name: Seq<char>, i: nat) -> Option<nat>
    decreases BUILTIN_COUNT - i,
{
    if i >= BUILTIN_COUNT {
        None
    } else if builtin_symbols()[i as int] == name {
        Some(i)
    } else {
        sym_index_from(name, i + 1)
    }
}

/// The position of `name` in the built-in symbol table, if it is there.
pub open spec fn sym_index(name: Seq<char>) -> Option<nat> {
    sym_index_from(name, 0)
}

proof fn lemma_sym_index_from(name: Seq<char>, i: nat)
    requires
        i <= BUILTIN_COUNT,
    ensures
        sym_index_from(name, i) matches Some(k) ==> i <= k < BUILTIN_COUNT
            && builtin_symbols()[k as int] == name
            && forall|j: int| i <= j < k ==> builtin_symbols()[j] != name,
        sym_index_from(name, i) is None ==> forall|j: int|
            i <= j < BUILTIN_COUNT ==> builtin_symbols()[j] != name,
    decreases BUILTIN_COUNT - i,
{
    if i < BUILTIN_COUNT {
        lemma_sym_index_from(name, i + 1);
    }
}

/// The index is the first position holding the name; there is none exactly when no
/// position holds it.
pub proof fn lemma_sym_index(name: Seq<char>)
    ensures
        sym_index(name) matches Some(k) ==> k < BUILTIN_COUNT && builtin_symbols()[k as int]
            == name && forall|j: int| 0 <= j < k ==> builtin_symbols()[j] != name,
        sym_index(name) is None ==> forall|j: int|
            0 <= j < BUILTIN_COUNT ==> builtin_symbols()[j] != name,
{
    lemma_sym_index_from(name, 0);
}

/// The built-in symbol at position `i`.
pub fn builtin_symbol(i: usize) -> (r: &'static str)
    requires
        i < BUILTIN_COUNT,
    ensures
        r@ == builtin_symbols()[i as int],
{
    match i {
        0 => "atom",
        1 => "apply",
        2 => "begin",
        3 => "car",
        4 => "cdr",
        5 => "char",
        6 => "commit",
        7 => "comm",
        8 => "bignum",
        9 => "cons",
        10 => "current-env",
        11 => "emit",
        12 => "empty-env",
        13 => "eval",
        14 => "eq",
        15 => "eqq",
        16 => "type-eq",
        17 => "type-eqq",
        18 => "hide",
        19 => "if",
        20 => "lambda",
        21 => "let",
        22 => "letrec",
        23 => "u64",
        24 => "open",
        25 => "quote",
        26 => "secret",
        27 => "strcons",
        28 => "list",
        29 => "+",
        30 => "-",
        31 => "*",
        32 => "/",
        33 => "%",
        34 => "=",
        35 => "<",
        36 => ">",
        37 => "<=",
        38 => ">=",
        39 => "breakpoint",
        _ => "fail",
    }
}

/// Whether two strings hold the same characters.
pub fn str_eq(a: &str, b: &str) -> (r: bool)
    ensures
        r == (a@ == b@),
{
    let n = a.unicode_len();
    if n != b.unicode_len() {
        return false;
    }
    let mut i: usize = 0;
    while i < n
        invariant
            n == a@.len(),
            n == b@.len(),
            i <= n,
            forall|j: int| 0 <= j < i ==> a@[j] == b@[j],
        decreases n - i,
    {
        if a.get_char(i) != b.get_char(i) {
            return false;
        }
        i += 1;
    }
    assert(a@ =~= b@);
    true
}

/// The position of a built-in symbol's name in the table, or `None` for any other name.
pub fn lurk_sym_index(name: &str) -> (r: Option<usize>)
    ensures
        r matches Some(k) ==> sym_index(name@) == Some(k as nat),
        r is None ==> sym_index(name@) is None,
{
    let mut i: usize = 0;
    while i < BUILTIN_COUNT
        invariant
            i <= BUILTIN_COUNT,
            sym_index(name@) == sym_index_from(name@, i as nat),
        decreases BUILTIN_COUNT - i,
    {
        if str_eq(builtin_symbol(i), name) {
            return Some(i);
        }
        i += 1;
    }
    None
}

} // verus!
