//! The order check: names must stand in ascending order, as strings are ordered.
//!
//! Given the names of an enum's variants, or of the arms of a `match`, the check finds the
//! first name that stands too late and the place where it belongs.

use vstd::prelude::*;
use vstd::string::StringExecFns;
use vstd::utf8::encode_utf8;

verus! {

/// The bytes by which a name is ordered: its encoding in UTF-8.
pub open spec fn key(name: Seq<char>) -> Seq<u8> {
    encode_utf8(name)
}

/// The keys of a list of names.
pub open spec fn keys(names: Seq<String>) -> Seq<Seq<u8>> {
    Seq::new(names.len(), |i: int| key(names[i]@))
}

/// `a` comes strictly before `b`, looking only at the bytes from place `k` on.
pub open spec fn precedes_from(a: Seq<u8>, b: Seq<u8>, k: int) -> bool
    decreases b.len() - k,
{
    if k < 0 || k >= b.len() {
        false
    } else if k >= a.len() {
        true
    } else if a[k] == b[k] {
        precedes_from(a, b, k + 1)
    } else {
        a[k] < b[k]
    }
}

/// `a` comes strictly before `b` in the order of strings: byte by byte, a proper prefix
/// first.
pub open spec fn precedes(a: Seq<u8>, b: Seq<u8>) -> bool {
    precedes_from(a, b, 0)
}

/// `a` does not come after `b`.
pub open spec fn not_after(a: Seq<u8>, b: Seq<u8>) -> bool {
    !precedes(b, a)
}

/// Every key stands before or with all that follow it.
pub open spec fn ascending(ks: Seq<Seq<u8>>) -> bool {
    forall|a: int, b: int| 0 <= a <= b < ks.len() ==> not_after(#[trigger] ks[a], #[trigger] ks[b])
}

/// The key at place `wanted` belongs at place `at`: everything before `at` is in order,
/// the key at `wanted` is the least from `at` on, the first of its kind, and it comes
/// strictly before the key that stands at `at`.
pub open spec fn misplaced(ks: Seq<Seq<u8>>, at: int, wanted: int) -> bool {
    &&& 0 <= at < wanted < ks.len()
    &&& forall|a: int, b: int|
        0 <= a < at && a <= b < ks.len() ==> not_after(#[trigger] ks[a], #[trigger] ks[b])
    &&& precedes(ks[wanted], ks[at])
    &&& forall|k: int| at <= k < ks.len() ==> not_after(ks[wanted], #[trigger] ks[k])
    &&& forall|k: int| at <= k < wanted ==> precedes(ks[wanted], #[trigger] ks[k])
}

proof fn lemma_precedes_from_chain(a: Seq<u8>, b: Seq<u8>, c: Seq<u8>, k: int)
    requires
        0 <= k,
        precedes_from(a, b, k),
        !precedes_from(c, b, k),
    ensures
        precedes_from(a, c, k),
    decreases b.len() - k,
{
    if k < a.len() && a[k] == b[k] && c[k] == b[k] {
        lemma_precedes_from_chain(a, b, c, k + 1);
    }
}

/// What comes before `b` comes before everything that `b` does not come after.
pub proof fn lemma_precedes_chain(a: Seq<u8>, b: Seq<u8>, c: Seq<u8>)
    requires
        precedes(a, b),
        not_after(b, c),
    ensures
        precedes(a, c),
{
    lemma_precedes_from_chain(a, b, c, 0);
}

proof fn lemma_precedes_from_one_way(a: Seq<u8>, b: Seq<u8>, k: int)
    requires
        0 <= k,
        precedes_from(a, b, k),
    ensures
        !precedes_from(b, a, k),
    decreases b.len() - k,
{
    if k < a.len() && a[k] == b[k] {
        lemma_precedes_from_one_way(a, b, k + 1);
    }
}

/// Of two keys at most one comes before the other.
pub proof fn lemma_precedes_one_way(a: Seq<u8>, b: Seq<u8>)
    requires
        precedes(a, b),
    ensures
        !precedes(b, a),
{
    lemma_precedes_from_one_way(a, b, 0);
}

/// A list with a misplaced key is not in ascending order, so the two answers of the check
/// exclude each other.
pub proof fn lemma_misplaced_not_ascending(ks: Seq<Seq<u8>>, at: int, wanted: int)
    requires
        misplaced(ks, at, wanted),
    ensures
        !ascending(ks),
{
    lemma_precedes_one_way(ks[wanted], ks[at]);
    assert(!not_after(ks[at], ks[wanted]));
}

/// Whether `a` comes strictly before `b` in the order of strings.
pub fn name_precedes(a: &String, b: &String) -> (r: bool)
    ensures
        r == precedes(key(a@), key(b@)),
{
    let x = a.as_str().as_bytes();
    let y = b.as_str().as_bytes();
    let mut k: usize = 0;
    while k < y.len()
        invariant
            k <= y.len(),
            x@ == key(a@),
            y@ == key(b@),
            precedes(x@, y@) == precedes_from(x@, y@, k as int),
        decreases y.len() - k,
    {
        if k >= x.len() {
            return true;
        }
        if x[k] != y[k] {
            return x[k] < y[k];
        }
        k += 1;
    }
    false
}

/// The place of the first least name at or behind `from`.
fn first_least(names: &Vec<String>, from: usize) -> (least: usize)
    requires
        from < names.len(),
    ensures
        from <= least < names.len(),
        forall|k: int|
            from <= k < names.len() ==> not_after(
                keys(names@)[least as int],
                #[trigger] keys(names@)[k],
            ),
        forall|k: int|
            from <= k < least ==> precedes(keys(names@)[least as int], #[trigger] keys(names@)[k]),
{
    let ghost ks = keys(names@);
    let mut least: usize = from;
    let mut k: usize = from + 1;
    proof {
        if precedes(ks[from as int], ks[from as int]) {
            lemma_precedes_one_way(ks[from as int], ks[from as int]);
        }
    }
    while k < names.len()
        invariant
            from <= least < k <= names.len(),
            ks == keys(names@),
            forall|t: int| from <= t < k ==> not_after(ks[least as int], #[trigger] ks[t]),
            forall|t: int| from <= t < least ==> precedes(ks[least as int], #[trigger] ks[t]),
        decreases names.len() - k,
    {
        if name_precedes(&names[k], &names[least]) {
            proof {
                let new = ks[k as int];
                let old = ks[least as int];
                assert forall|t: int| from <= t < k implies precedes(new, #[trigger] ks[t]) by {
                    lemma_precedes_chain(new, old, ks[t]);
                }
                assert forall|t: int| from <= t < k + 1 implies not_after(new, #[trigger] ks[t]) by {
                    if t < k {
                        lemma_precedes_one_way(new, ks[t]);
                    } else if precedes(new, new) {
                        lemma_precedes_one_way(new, new);
                    }
                }
            }
            least = k;
        }
        k += 1;
    }
    least
}

/// Looks for the first name that stands too late.
///
/// `None` exactly where the names are in ascending order. Otherwise `(at, wanted)`: the
/// names before place `at` are in order, and the name at place `wanted` belongs at place
/// `at`, before the name that stands there.
pub fn first_misplaced(names: &Vec<String>) -> (r: Option<(usize, usize)>)
    ensures
        match r {
            None => ascending(keys(names@)),
            Some((at, wanted)) => misplaced(keys(names@), at as int, wanted as int),
        },
{
    let ghost ks = keys(names@);
    let mut at: usize = 0;
    while at < names.len()
        invariant
            at <= names.len(),
            ks == keys(names@),
            forall|a: int, b: int|
                0 <= a < at && a <= b < ks.len() ==> not_after(#[trigger] ks[a], #[trigger] ks[b]),
        decreases names.len() - at,
    {
        let wanted = first_least(names, at);
        if wanted != at {
            return Some((at, wanted));
        }
        at += 1;
    }
    None
}

/// The text of the complaint about a misplaced name.
pub open spec fn complaint(wanted: Seq<char>, found: Seq<char>) -> Seq<char> {
    wanted + " should sort before "@ + found
}

/// The complaint that `wanted` belongs before `found`.
pub fn misplaced_message(wanted: &String, found: &String) -> (s: String)
    ensures
        s@ == complaint(wanted@, found@),
{
    let mut s = wanted.clone();
    s.append(" should sort before ");
    s.append(found.as_str());
    s
}

/// The qualified form of a path: its segments joined by `::`.
pub open spec fn qualified(segments: Seq<String>) -> Seq<char>
    decreases segments.len(),
{
    if segments.len() == 0 {
        Seq::empty()
    } else if segments.len() == 1 {
        segments[0]@
    } else {
        qualified(segments.drop_last()) + "::"@ + segments.last()@
    }
}

/// Joins the segments of a path by `::`.
pub fn full_path(segments: &Vec<String>) -> (s: String)
    ensures
        s@ == qualified(segments@),
{
    let mut s = String::new();
    let mut k: usize = 0;
    assert(segments@.take(0) =~= Seq::<String>::empty());
    while k < segments.len()
        invariant
            k <= segments.len(),
            s@ == qualified(segments@.take(k as int)),
        decreases segments.len() - k,
    {
        proof {
            let done = segments@.take(k as int);
            let next = segments@.take(k + 1);
            assert(next.drop_last() =~= done);
            assert(next.last() == segments@[k as int]);
            if k == 0 {
                assert(qualified(next) == segments@[0]@);
                assert(Seq::<char>::empty() + segments@[0]@ =~= segments@[0]@);
            }
        }
        if k > 0 {
            s.append("::");
        }
        s.append(segments[k].as_str());
        k += 1;
    }
    assert(segments@.take(segments.len() as int) =~= segments@);
    s
}

/// What the order check reads of one arm of a `match`.
#[derive(Debug, PartialEq, Eq)]
pub enum Arm {
    /// A pattern with a name: an identifier, or a path to a variant.
    Named(String),
    /// The pattern `_`.
    Wildcard,
    /// Any other pattern.
    Other,
}

/// The outcome of the check on the arms of a `match`.
#[derive(Clone, Copy, Debug, PartialEq, Eq, Structural)]
pub enum Verdict {
    /// The arms are in order.
    Sorted,
    /// The arm at place `wanted` belongs at place `at`.
    Misplaced { at: usize, wanted: usize },
    /// The arm at place `at` cannot be checked.
    Unsupported { at: usize },
}

/// The arm at place `k` cannot be checked: it has no name, or it is a `_` that is not the
/// last arm.
pub open spec fn unsupported_at(arms: Seq<Arm>, k: int) -> bool {
    &&& 0 <= k < arms.len()
    &&& (arms[k] is Other || (arms[k] is Wildcard && k + 1 < arms.len()))
}

/// The number of arms that take part in the order: all but a closing `_`.
pub open spec fn named_count(arms: Seq<Arm>) -> int {
    if arms.len() > 0 && arms.last() is Wildcard {
        arms.len() - 1
    } else {
        arms.len() as int
    }
}

/// The keys of the first `n` arms, all of them named.
pub open spec fn arm_keys(arms: Seq<Arm>, n: int) -> Seq<Seq<u8>> {
    Seq::new(n as nat, |i: int| key(arms[i]->Named_0@))
}

/// Checks the arms of a `match`.
///
/// The first arm that cannot be checked is reported as unsupported. Where there is none,
/// the names of the arms, without a closing `_`, are checked for ascending order.
pub fn check_arms(arms: &Vec<Arm>) -> (v: Verdict)
    ensures
        match v {
            Verdict::Unsupported { at } => {
                &&& unsupported_at(arms@, at as int)
                &&& forall|k: int| 0 <= k < at ==> !unsupported_at(arms@, k)
            },
            Verdict::Sorted => {
                &&& forall|k: int| 0 <= k < arms.len() ==> !unsupported_at(arms@, k)
                &&& ascending(arm_keys(arms@, named_count(arms@)))
            },
            Verdict::Misplaced { at, wanted } => {
                &&& forall|k: int| 0 <= k < arms.len() ==> !unsupported_at(arms@, k)
                &&& misplaced(arm_keys(arms@, named_count(arms@)), at as int, wanted as int)
            },
        },
{
    let mut names: Vec<String> = Vec::new();
    let mut k: usize = 0;
    while k < arms.len()
        invariant
            k <= arms.len(),
            names.len() <= k,
            names.len() == k || (k == arms.len() && names.len() + 1 == k && arms@.last() is Wildcard),
            forall|t: int| 0 <= t < k ==> !unsupported_at(arms@, t),
            forall|t: int| 0 <= t < names.len() ==> arms@[t] is Named,
            forall|t: int| 0 <= t < names.len() ==> names@[t]@ == arms@[t]->Named_0@,
        decreases arms.len() - k,
    {
        match &arms[k] {
            Arm::Named(name) => {
                names.push(name.clone());
            },
            Arm::Wildcard => {
                if k + 1 < arms.len() {
                    return Verdict::Unsupported { at: k };
                }
            },
            Arm::Other => {
                return Verdict::Unsupported { at: k };
            },
        }
        k += 1;
    }
    assert(names.len() == named_count(arms@));
    assert(keys(names@) =~= arm_keys(arms@, named_count(arms@)));
    match first_misplaced(&names) {
        None => Verdict::Sorted,
        Some((at, wanted)) => Verdict::Misplaced { at, wanted },
    }
}

} // verus!
