//! Choice of the log file of a session: `deployment_<n>.txt` for the lowest
//! positive `n` whose file is not there yet.
use vstd::prelude::*;
use vstd::relations::injective_on;
use vstd::set_lib::{lemma_int_range, lemma_len_subset, lemma_map_size, set_int_range};

verus! {

/// Directory that holds the log files.
pub const LOG_DIR: &'static str = ".deployments";

/// The decimal digit character of `d`, for `d < 10`.
pub open spec fn digit_char(d: nat) -> char {
    if d == 0 {
        '0'
    } else if d == 1 {
        '1'
    } else if d == 2 {
        '2'
    } else if d == 3 {
        '3'
    } else if d == 4 {
        '4'
    } else if d == 5 {
        '5'
    } else if d == 6 {
        '6'
    } else if d == 7 {
        '7'
    } else if d == 8 {
        '8'
    } else {
        '9'
    }
}

/// The decimal representation of `n`, without leading zeros.
pub open spec fn decimal(n: nat) -> Seq<char>
    decreases n,
{
    if n < 10 {
        seq![digit_char(n)]
    } else {
        decimal(n / 10) + seq![digit_char(n % 10)]
    }
}

/// Name of the log file numbered `n`.
pub open spec fn log_file_name_of(n: nat) -> Seq<char> {
    "deployment_"@ + decimal(n) + ".txt"@
}

/// Some entry of `names` is the log file numbered `n`.
pub open spec fn is_taken(names: Seq<String>, n: nat) -> bool {
    exists|i: int| 0 <= i < names.len() && (#[trigger] names[i])@ == log_file_name_of(n)
}

proof fn lemma_decimal_nonempty(n: nat)
    ensures
        decimal(n).len() >= 1,
        n >= 10 ==> decimal(n).len() >= 2,
    decreases n,
{
    if n >= 10 {
        lemma_decimal_nonempty(n / 10);
    }
}

/// Different numbers are written differently.
proof fn lemma_decimal_injective(a: nat, b: nat)
    requires
        decimal(a) == decimal(b),
    ensures
        a == b,
    decreases a,
{
    lemma_decimal_nonempty(a);
    lemma_decimal_nonempty(b);
    if a >= 10 && b >= 10 {
        let da = decimal(a);
        assert(da.drop_last() =~= decimal(a / 10));
        assert(decimal(b).drop_last() =~= decimal(b / 10));
        assert(da.last() == digit_char(a % 10));
        assert(decimal(b).last() == digit_char(b % 10));
        assert(a % 10 == b % 10);
        lemma_decimal_injective(a / 10, b / 10);
        assert(a == 10 * (a / 10) + a % 10);
        assert(b == 10 * (b / 10) + b % 10);
    } else {
        assert(decimal(a)[0] == digit_char(a));
        assert(decimal(b)[0] == digit_char(b));
    }
}

/// Different numbers name different files.
proof fn lemma_name_injective(a: nat, b: nat)
    requires
        log_file_name_of(a) == log_file_name_of(b),
    ensures
        a == b,
{
    let p = "deployment_"@;
    let q = ".txt"@;
    let x = decimal(a);
    let y = decimal(b);
    assert(log_file_name_of(a).len() == p.len() + x.len() + q.len());
    assert(x =~= log_file_name_of(a).subrange(p.len() as int, (p.len() + x.len()) as int));
    assert(y =~= log_file_name_of(b).subrange(p.len() as int, (p.len() + y.len()) as int));
    lemma_decimal_injective(a, b);
}

/// `names` cannot take more numbers than it has entries.
proof fn lemma_taken_bound(names: Seq<String>, k: nat)
    requires
        forall|m: nat| 1 <= m <= k ==> is_taken(names, m),
    ensures
        k <= names.len(),
{
    let f = |m: int|
        choose|i: int| 0 <= i < names.len() && (#[trigger] names[i])@ == log_file_name_of(m as nat);
    let dom = set_int_range(1, (k + 1) as int);
    let img = dom.map(f);
    let all = set_int_range(0, names.len() as int);
    lemma_int_range(1, (k + 1) as int);
    lemma_int_range(0, names.len() as int);
    assert forall|m: int| dom.contains(m) implies 0 <= #[trigger] f(m) < names.len()
        && names[f(m)]@ == log_file_name_of(m as nat) by {
        assert(is_taken(names, m as nat));
    }
    assert forall|a: int, b: int| dom.contains(a) && dom.contains(b) && #[trigger] f(a) == #[trigger] f(b)
        implies a == b by {
        lemma_name_injective(a as nat, b as nat);
    }
    assert(injective_on(f, dom));
    lemma_map_size(dom, img, f);
    assert forall|i: int| img.contains(i) implies all.contains(i) by {
        let m = choose|m: int| dom.contains(m) && f(m) == i;
    }
    lemma_len_subset(img, all);
}

fn digit_string(d: u64) -> (r: String)
    requires
        d < 10,
    ensures
        r@ == seq![digit_char(d as nat)],
{
    let s = if d == 0 {
        proof { reveal_strlit("0"); }
        "0"
    } else if d == 1 {
        proof { reveal_strlit("1"); }
        "1"
    } else if d == 2 {
        proof { reveal_strlit("2"); }
        "2"
    } else if d == 3 {
        proof { reveal_strlit("3"); }
        "3"
    } else if d == 4 {
        proof { reveal_strlit("4"); }
        "4"
    } else if d == 5 {
        proof { reveal_strlit("5"); }
        "5"
    } else if d == 6 {
        proof { reveal_strlit("6"); }
        "6"
    } else if d == 7 {
        proof { reveal_strlit("7"); }
        "7"
    } else if d == 8 {
        proof { reveal_strlit("8"); }
        "8"
    } else {
        proof { reveal_strlit("9"); }
        "9"
    };
    let r = String::from_str(s);
    assert(r@ =~= seq![digit_char(d as nat)]);
    r
}

/// The decimal representation of `n`.
pub fn decimal_string(n: u64) -> (r: String)
    ensures
        r@ == decimal(n as nat),
    decreases n,
{
    if n < 10 {
        digit_string(n)
    } else {
        let head = decimal_string(n / 10);
        let tail = digit_string(n % 10);
        head.concat(tail.as_str())
    }
}

/// Name of the log file numbered `n`.
pub fn log_file_name(n: u64) -> (r: String)
    ensures
        r@ == log_file_name_of(n as nat),
{
    let digits = decimal_string(n);
    String::from_str("deployment_").concat(digits.as_str()).concat(".txt")
}

/// Whether one of `names` is the log file numbered `n`.
fn taken(names: &Vec<String>, n: u64) -> (r: bool)
    ensures
        r == is_taken(names@, n as nat),
{
    let name = log_file_name(n);
    let mut i: usize = 0;
    while i < names.len()
        invariant
            i <= names@.len(),
            name@ == log_file_name_of(n as nat),
            forall|j: int| 0 <= j < i ==> (#[trigger] names@[j])@ != log_file_name_of(n as nat),
        decreases names.len() - i,
    {
        if names[i] == name {
            return true;
        }
        i += 1;
    }
    false
}

/// The number of the log file of a new session, given the entries of the log
/// directory: the lowest positive number whose file is not among them.
pub fn log_file_number(names: &Vec<String>) -> (n: u64)
    requires
        names@.len() < u64::MAX,
    ensures
        n >= 1,
        !is_taken(names@, n as nat),
        forall|m: nat| 1 <= m < n ==> is_taken(names@, m),
{
    let bound = names.len() as u64 + 1;
    let mut n: u64 = 1;
    while n < bound
        invariant
            bound == names@.len() + 1,
            1 <= n <= bound,
            forall|m: nat| 1 <= m < n ==> is_taken(names@, m),
        decreases bound - n,
    {
        if !taken(names, n) {
            return n;
        }
        n += 1;
    }
    if !taken(names, n) {
        return n;
    }
    proof {
        lemma_taken_bound(names@, bound as nat);
    }
    n
}

} // verus!
