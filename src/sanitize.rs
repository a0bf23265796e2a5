//! Removal of terminal styling sequences (`ESC [ <params> <letter>`) from a line.
use vstd::prelude::*;

verus! {

/// The escape character that opens a styling sequence.
pub open spec fn is_escape_char(c: char) -> bool {
    c == '\u{1b}'
}

/// A parameter character of a styling sequence: a decimal digit or `;`.
pub open spec fn is_param(c: char) -> bool {
    ('0' <= c && c <= '9') || c == ';'
}

/// The character that closes a styling sequence: an ASCII letter.
pub open spec fn is_final(c: char) -> bool {
    ('a' <= c && c <= 'z') || ('A' <= c && c <= 'Z')
}

/// Number of parameter characters at the start of `s`.
pub open spec fn param_run(s: Seq<char>) -> nat
    decreases s.len(),
{
    if s.len() > 0 && is_param(s[0]) {
        1 + param_run(s.skip(1))
    } else {
        0
    }
}

/// Length of the styling sequence at the start of `s`, if one starts there.
pub open spec fn escape_len(s: Seq<char>) -> nat {
    param_run(s.skip(2)) + 3
}

/// `s` starts with `ESC [`, a run of parameters and a closing letter.
pub open spec fn starts_with_escape(s: Seq<char>) -> bool {
    &&& s.len() >= 2
    &&& is_escape_char(s[0])
    &&& s[1] == '['
    &&& escape_len(s) <= s.len()
    &&& is_final(s[escape_len(s) - 1])
}

/// Some styling sequence starts somewhere in `s`.
pub open spec fn has_escape(s: Seq<char>) -> bool {
    exists|i: int| 0 <= i < s.len() && #[trigger] starts_with_escape(s.skip(i))
}

/// `s` is made of styling sequences only, one after the other.
pub open spec fn only_escapes(s: Seq<char>) -> bool
    decreases s.len(),
{
    s.len() == 0 || (starts_with_escape(s) && only_escapes(s.skip(escape_len(s) as int)))
}

/// `s` with every styling sequence removed, scanning from the left: where a
/// sequence starts it is dropped whole, elsewhere one character is kept.
pub open spec fn stripped(s: Seq<char>) -> Seq<char>
    decreases s.len(),
{
    if s.len() == 0 {
        Seq::empty()
    } else if starts_with_escape(s) {
        stripped(s.skip(escape_len(s) as int))
    } else {
        seq![s[0]] + stripped(s.skip(1))
    }
}

/// Relies on `regex::Regex::new`, which accepts the pattern
/// `\x1B\[[0-9;]*[a-zA-Z]`, and on `regex::Regex::replace_all` with that
/// pattern and an empty replacement: it replaces every leftmost-first,
/// non-overlapping match from left to right. As digits and `;` are no
/// letters, a match starting at a given place is unique, which `stripped`
/// spells out.
#[verifier::external_body]
fn replace_escapes(line: &str) -> (r: String)
    ensures
        r@ == stripped(line@),
{
    regex::Regex::new("\x1B\\[[0-9;]*[a-zA-Z]").unwrap().replace_all(line, "").into_owned()
}

/// `s` after `k` passes of `stripped`.
pub open spec fn strip_n(s: Seq<char>, k: nat) -> Seq<char>
    decreases k,
{
    if k == 0 {
        s
    } else {
        strip_n(stripped(s), (k - 1) as nat)
    }
}

/// `s` with styling sequences removed until none is left: a pass can join
/// the pieces round a removed sequence into a new one, and each pass that
/// removes something shortens the line, so `s.len()` passes reach the end.
pub open spec fn sanitized(s: Seq<char>) -> Seq<char> {
    strip_n(s, s.len())
}

/// The line as it is persisted: with all styling sequences removed, pass after
/// pass, until none is left.
pub fn sanitize(line: &str) -> (r: String)
    ensures
        r@ == sanitized(line@),
        !has_escape(r@),
{
    let mut cur = replace_escapes(line);
    let ghost mut j: nat = 1;
    assert(strip_n(stripped(line@), 0) == stripped(line@));
    loop
        invariant
            cur@ == strip_n(line@, j),
        decreases cur@.len(),
    {
        let next = replace_escapes(cur.as_str());
        proof {
            lemma_strip_n_step(line@, j);
        }
        if next == cur {
            proof {
                lemma_fixpoint_reached(line@, j);
                lemma_escape_shortens(cur@);
            }
            return cur;
        }
        proof {
            if !has_escape(cur@) {
                lemma_plain_unchanged(cur@);
            }
            lemma_escape_shortens(cur@);
            j = j + 1;
        }
        cur = next;
    }
}

/// A pass never lengthens a line, and shortens every line that holds a sequence.
proof fn lemma_escape_shortens(s: Seq<char>)
    ensures
        stripped(s).len() <= s.len(),
        has_escape(s) ==> stripped(s).len() < s.len(),
        stripped(s) == s <==> !has_escape(s),
    decreases s.len(),
{
    if s.len() > 0 {
        if starts_with_escape(s) {
            lemma_escape_shortens(s.skip(escape_len(s) as int));
            assert(s.skip(0) == s);
        } else {
            let t = s.skip(1);
            lemma_escape_shortens(t);
            if has_escape(s) {
                let i = choose|i: int| 0 <= i < s.len() && #[trigger] starts_with_escape(s.skip(i));
                assert(s.skip(0) == s);
                assert(t.skip(i - 1) == s.skip(i));
                assert(has_escape(t));
            }
            if has_escape(t) {
                let i = choose|i: int| 0 <= i < t.len() && #[trigger] starts_with_escape(t.skip(i));
                assert(t.skip(i) == s.skip(i + 1));
                assert(has_escape(s));
            }
            assert(seq![s[0]] + t == s);
            if stripped(t) != t {
                assert((seq![s[0]] + stripped(t)).drop_first() == stripped(t));
            }
        }
    }
    if !has_escape(s) {
        lemma_plain_unchanged(s);
    }
}

/// Passes after the last change change nothing.
proof fn lemma_fixed_stays(s: Seq<char>, k: nat)
    requires
        stripped(s) == s,
    ensures
        strip_n(s, k) == s,
    decreases k,
{
    if k > 0 {
        lemma_fixed_stays(s, (k - 1) as nat);
    }
}

/// One more pass is `stripped` applied to the result.
proof fn lemma_strip_n_step(s: Seq<char>, k: nat)
    ensures
        strip_n(s, k + 1) == stripped(strip_n(s, k)),
    decreases k,
{
    assert(strip_n(stripped(s), 0) == stripped(s));
    if k > 0 {
        lemma_strip_n_step(stripped(s), (k - 1) as nat);
    }
}

/// After `s.len()` passes nothing changes any more.
proof fn lemma_enough_passes(s: Seq<char>, k: nat)
    requires
        k >= s.len(),
    ensures
        stripped(strip_n(s, k)) == strip_n(s, k),
    decreases k,
{
    lemma_escape_shortens(s);
    if stripped(s) == s {
        lemma_fixed_stays(s, k);
    } else {
        lemma_enough_passes(stripped(s), (k - 1) as nat);
    }
}

/// Once a pass changes nothing, every later count of passes gives the same line.
proof fn lemma_fixed_after(s: Seq<char>, j: nat, k: nat)
    requires
        j <= k,
        stripped(strip_n(s, j)) == strip_n(s, j),
    ensures
        strip_n(s, k) == strip_n(s, j),
    decreases j,
{
    if j == 0 {
        lemma_fixed_stays(s, k);
    } else {
        lemma_fixed_after(stripped(s), (j - 1) as nat, (k - 1) as nat);
    }
}

/// A count of passes after which nothing changes gives the sanitized line.
proof fn lemma_fixpoint_reached(s: Seq<char>, j: nat)
    requires
        stripped(strip_n(s, j)) == strip_n(s, j),
    ensures
        strip_n(s, j) == sanitized(s),
{
    let k = if j >= s.len() { j } else { s.len() };
    lemma_fixed_after(s, j, k);
    lemma_enough_passes(s, s.len());
    lemma_fixed_after(s, s.len(), k);
}

/// A sanitized line holds no styling sequence.
pub proof fn lemma_sanitized_plain(s: Seq<char>)
    ensures
        !has_escape(sanitized(s)),
{
    lemma_enough_passes(s, s.len());
    lemma_escape_shortens(sanitized(s));
}

/// A line without styling sequences is left as it is.
pub proof fn lemma_plain_unchanged(s: Seq<char>)
    requires
        !has_escape(s),
    ensures
        stripped(s) == s,
        sanitized(s) == s,
    decreases s.len(),
{
    if s.len() > 0 {
        assert(s.skip(0) == s);
        assert(!starts_with_escape(s.skip(0)));
        let t = s.skip(1);
        assert forall|i: int| 0 <= i < t.len() implies !#[trigger] starts_with_escape(t.skip(i)) by {
            assert(t.skip(i) == s.skip(i + 1));
        }
        lemma_plain_unchanged(t);
        assert(seq![s[0]] + t == s);
    } else {
        assert(stripped(s) =~= s);
    }
    lemma_fixed_stays(s, s.len());
}

/// A line made only of styling sequences becomes the empty line.
pub proof fn lemma_only_escapes_vanish(s: Seq<char>)
    requires
        only_escapes(s),
    ensures
        stripped(s) == Seq::<char>::empty(),
        sanitized(s) == Seq::<char>::empty(),
    decreases s.len(),
{
    if s.len() > 0 {
        lemma_only_escapes_vanish(s.skip(escape_len(s) as int));
        lemma_fixed_stays(Seq::<char>::empty(), (s.len() - 1) as nat);
    }
}

/// Sanitizing twice gives what sanitizing once gives.
pub proof fn lemma_sanitize_idempotent(s: Seq<char>)
    ensures
        sanitized(sanitized(s)) == sanitized(s),
{
    lemma_sanitized_plain(s);
    lemma_plain_unchanged(sanitized(s));
}

} // verus!
