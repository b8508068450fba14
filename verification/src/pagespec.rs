//! Page specifications such as `"5-7,3,8,12"`: comma-separated single
//! numbers and inclusive ranges, turned into a sorted list of distinct page
//! numbers.

use vstd::prelude::*;
use crate::text::{
    decimal, decimal_chars, extend_chars, extend_str, first_index, find_char, lemma_first_index,
    parse_usize, parse_usize_chars, split, split_trimmed, trim, trim_bounds,
};
use crate::pdf::non_empty;

verus! {

/// Why one comma-separated part of a page specification was refused.
#[derive(Clone, Copy, Debug, PartialEq, Eq, Structural)]
pub enum PartError {
    /// The number before `-` is not a `usize`.
    BadStart,
    /// The number after `-` is not a `usize`.
    BadEnd,
    /// A range whose start is greater than its end.
    Inverted(usize, usize),
    /// A part without `-` that is not a `usize`.
    BadNumber,
}

/// The inclusive range that one (already trimmed) part denotes: `"n"` is
/// `n..=n`, `"a-b"` is `a..=b` with both sides trimmed; the range splits at
/// the first `-`.
pub open spec fn part_range(p: Seq<char>) -> Result<(usize, usize), PartError> {
    match first_index(p, '-') {
        Some(k) => match parse_usize(trim(p.take(k))) {
            None => Err(PartError::BadStart),
            Some(a) => match parse_usize(trim(p.skip(k + 1))) {
                None => Err(PartError::BadEnd),
                Some(b) => if a > b {
                    Err(PartError::Inverted(a, b))
                } else {
                    Ok((a, b))
                },
            },
        },
        None => match parse_usize(p) {
            None => Err(PartError::BadNumber),
            Some(n) => Ok((n, n)),
        },
    }
}

/// The numbers `a..=b`.
pub open spec fn range_set(a: usize, b: usize) -> Set<usize> {
    Set::new(|x: usize| a <= x && x <= b)
}

/// The pages that the trimmed parts denote, or the first refused part with
/// the reason; with `skip_empty`, empty parts are passed over.
pub open spec fn parts_pages(parts: Seq<Seq<char>>, skip_empty: bool) -> Result<
    Set<usize>,
    (Seq<char>, PartError),
>
    decreases parts.len(),
{
    if parts.len() == 0 {
        Ok(Set::empty())
    } else {
        match parts_pages(parts.drop_last(), skip_empty) {
            Err(e) => Err(e),
            Ok(s) => if skip_empty && parts.last().len() == 0 {
                Ok(s)
            } else {
                match part_range(parts.last()) {
                    Err(e) => Err((parts.last(), e)),
                    Ok((a, b)) => Ok(s.union(range_set(a, b))),
                }
            },
        }
    }
}

/// The pages of a whole specification: its comma-separated parts, trimmed.
pub open spec fn spec_pages(spec: Seq<char>, skip_empty: bool) -> Result<
    Set<usize>,
    (Seq<char>, PartError),
> {
    parts_pages(split(spec, ',').map_values(|p: Seq<char>| trim(p)), skip_empty)
}

/// Whether `s` is strictly increasing.
pub open spec fn strictly_increasing(s: Seq<usize>) -> bool {
    forall|i: int, j: int| 0 <= i < j < s.len() ==> s[i] < s[j]
}

/// Inserts `x` into a strictly increasing vector, keeping it so.
fn insert_sorted(v: &mut Vec<usize>, x: usize)
    requires
        strictly_increasing(old(v)@),
    ensures
        strictly_increasing(final(v)@),
        final(v)@.to_set() == old(v)@.to_set().insert(x),
{
    let mut i: usize = 0;
    while i < v.len() && v[i] < x
        invariant
            i <= v.len(),
            forall|j: int| 0 <= j < i ==> v@[j] < x,
        decreases v.len() - i,
    {
        i = i + 1;
    }
    let ghost before = v@;
    if i < v.len() && v[i] == x {
        assert(before.to_set().insert(x) =~= before.to_set());
        return;
    }
    v.insert(i, x);
    proof {
        assert(v@ =~= before.take(i as int).push(x) + before.skip(i as int));
        assert forall|a: int, b: int| 0 <= a < b < v@.len() implies v@[a] < v@[b] by {
            if b < i {
            } else if b == i {
            } else if a < i {
                assert(v@[b] == before[b - 1]);
                assert(before[i as int] > x);
                if b - 1 > i {
                    assert(before[i as int] < before[b - 1]);
                }
            } else if a == i {
                assert(v@[b] == before[b - 1]);
                if b - 1 > i {
                    assert(before[i as int] < before[b - 1]);
                }
            } else {
                assert(v@[a] == before[a - 1]);
                assert(v@[b] == before[b - 1]);
            }
        }
        assert forall|y: usize| v@.to_set().contains(y) <==> before.to_set().insert(x).contains(y) by {
            if v@.to_set().contains(y) {
                let k = choose|k: int| 0 <= k < v@.len() && v@[k] == y;
                if k < i {
                    assert(before[k] == y);
                } else if k > i {
                    assert(before[k - 1] == y);
                }
            }
            if before.to_set().contains(y) && y != x {
                let k = choose|k: int| 0 <= k < before.len() && before[k] == y;
                if k < i {
                    assert(v@[k] == y);
                } else {
                    assert(v@[k + 1] == y);
                }
            }
            if y == x {
                assert(v@[i as int] == x);
            }
        }
        assert(v@.to_set() =~= before.to_set().insert(x));
    }
}

/// Inserts `a..=b` into a strictly increasing vector, keeping it so.
pub(crate) fn insert_range(v: &mut Vec<usize>, a: usize, b: usize)
    requires
        strictly_increasing(old(v)@),
        a <= b,
    ensures
        strictly_increasing(final(v)@),
        final(v)@.to_set() == old(v)@.to_set().union(range_set(a, b)),
{
    let ghost start = v@.to_set();
    let mut x = a;
    assert(start.union(Set::new(|y: usize| a <= y && y < x)) =~= start);
    loop
        invariant_except_break
            a <= x <= b,
            v@.to_set() == start.union(Set::new(|y: usize| a <= y && y < x)),
        invariant
            strictly_increasing(v@),
        ensures
            v@.to_set() == start.union(range_set(a, b)),
        decreases b - x,
    {
        insert_sorted(v, x);
        if x == b {
            assert(v@.to_set() =~= start.union(range_set(a, b)));
            break;
        }
        assert(v@.to_set() =~= start.union(Set::new(|y: usize| a <= y && y < x + 1)));
        x = x + 1;
    }
}

/// Builds the message for a refused part, in the wording of the caller.
fn part_message(part: &Vec<char>, err: PartError, range_words: bool) -> (r: Vec<char>)
    ensures
        r@ == error_message(part@, err, range_words),
{
    let mut r: Vec<char> = Vec::new();
    match err {
        PartError::BadStart => {
            if range_words {
                extend_str(&mut r, "Invalid range start: ");
            } else {
                extend_str(&mut r, "Invalid start number: ");
            }
            extend_chars(&mut r, part);
        },
        PartError::BadEnd => {
            if range_words {
                extend_str(&mut r, "Invalid range end: ");
            } else {
                extend_str(&mut r, "Invalid end number: ");
            }
            extend_chars(&mut r, part);
        },
        PartError::BadNumber => {
            extend_str(&mut r, "Invalid page number: ");
            extend_chars(&mut r, part);
        },
        PartError::Inverted(a, b) => {
            if range_words {
                extend_str(&mut r, "Range start > end: ");
                extend_chars(&mut r, &decimal_chars(a));
                extend_str(&mut r, " > ");
                extend_chars(&mut r, &decimal_chars(b));
            } else {
                extend_str(&mut r, "Invalid range '");
                extend_chars(&mut r, part);
                extend_str(&mut r, "': start (");
                extend_chars(&mut r, &decimal_chars(a));
                extend_str(&mut r, ") must be <= end (");
                extend_chars(&mut r, &decimal_chars(b));
                extend_str(&mut r, ")");
            }
        },
    }
    assert(r@ =~= error_message(part@, err, range_words));
    r
}

/// The message for a refused part. `range_words` selects the wording of
/// `parse_page_spec`; otherwise that of `parse_page_range`.
pub open spec fn error_message(part: Seq<char>, err: PartError, range_words: bool) -> Seq<char> {
    match err {
        PartError::BadStart => if range_words {
            "Invalid range start: "@ + part
        } else {
            "Invalid start number: "@ + part
        },
        PartError::BadEnd => if range_words {
            "Invalid range end: "@ + part
        } else {
            "Invalid end number: "@ + part
        },
        PartError::BadNumber => "Invalid page number: "@ + part,
        PartError::Inverted(a, b) => if range_words {
            "Range start > end: "@ + decimal(a as nat) + " > "@ + decimal(b as nat)
        } else {
            "Invalid range '"@ + part + "': start ("@ + decimal(a as nat) + ") must be <= end ("@
                + decimal(b as nat) + ")"@
        },
    }
}

/// Executable form of [`part_range`] on a trimmed part.
fn parse_part(p: &Vec<char>) -> (r: Result<(usize, usize), PartError>)
    ensures
        r == part_range(p@),
{
    match find_char(p, 0, p.len(), '-') {
        Some(k) => {
            proof {
                assert(p@.subrange(0, p.len() as int) =~= p@);
                lemma_first_index(p@, '-');
            }
            let (a0, a1) = trim_bounds(p, 0, k);
            assert(p@.subrange(0, k as int) =~= p@.take(k as int));
            let (b0, b1) = trim_bounds(p, k + 1, p.len());
            assert(p@.subrange(k + 1, p.len() as int) =~= p@.skip(k + 1));
            match parse_usize_chars(p, a0, a1) {
                None => Err(PartError::BadStart),
                Some(a) => match parse_usize_chars(p, b0, b1) {
                    None => Err(PartError::BadEnd),
                    Some(b) => if a > b {
                        Err(PartError::Inverted(a, b))
                    } else {
                        Ok((a, b))
                    },
                },
            }
        },
        None => {
            assert(p@.subrange(0, p.len() as int) =~= p@);
            match parse_usize_chars(p, 0, p.len()) {
                None => Err(PartError::BadNumber),
                Some(n) => Ok((n, n)),
            }
        },
    }
}

/// Parses a page specification into strictly increasing page numbers, or
/// returns the first refused part with its message.
pub fn parse_pages(spec: &str, skip_empty: bool, range_words: bool) -> (r: Result<
    Vec<usize>,
    Vec<char>,
>)
    ensures
        match spec_pages(spec@, skip_empty) {
            Ok(s) => r matches Ok(v) && strictly_increasing(v@) && v@.to_set() == s,
            Err((part, e)) => r matches Err(m) && m@ == error_message(part, e, range_words),
        },
{
    let chars = crate::text::str_chars(spec);
    let parts = split_trimmed(&chars, ',');
    let ghost views = split(spec@, ',').map_values(|p: Seq<char>| trim(p));
    assert(parts@.len() == views.len());
    let mut result: Vec<usize> = Vec::new();
    let mut i: usize = 0;
    assert(views.take(0) =~= Seq::<Seq<char>>::empty());
    assert(result@.to_set() =~= Set::<usize>::empty());
    while i < parts.len()
        invariant
            i <= parts.len() == views.len(),
            views == split(spec@, ',').map_values(|p: Seq<char>| trim(p)),
            forall|j: int| 0 <= j < parts@.len() ==> #[trigger] parts@[j]@ == views[j],
            strictly_increasing(result@),
            parts_pages(views.take(i as int), skip_empty) == Ok::<Set<usize>, (Seq<char>, PartError)>(
                result@.to_set(),
            ),
        decreases parts.len() - i,
    {
        assert(views.take(i + 1).drop_last() =~= views.take(i as int));
        assert(views.take(i + 1).last() == parts@[i as int]@);
        if skip_empty && parts[i].len() == 0 {
            i = i + 1;
            continue;
        }
        match parse_part(&parts[i]) {
            Err(e) => {
                proof {
                    lemma_error_persists(views, i + 1, skip_empty);
                }
                return Err(part_message(&parts[i], e, range_words));
            },
            Ok((a, b)) => {
                insert_range(&mut result, a, b);
            },
        }
        i = i + 1;
    }
    assert(views.take(parts.len() as int) =~= views);
    Ok(result)
}

/// A refused part decides the outcome of every longer list of parts.
pub proof fn lemma_error_persists(parts: Seq<Seq<char>>, k: int, skip_empty: bool)
    requires
        0 <= k <= parts.len(),
        parts_pages(parts.take(k), skip_empty) is Err,
    ensures
        parts_pages(parts, skip_empty) == parts_pages(parts.take(k), skip_empty),
    decreases parts.len() - k,
{
    if k < parts.len() {
        assert(parts.take(k + 1).drop_last() =~= parts.take(k));
        lemma_error_persists(parts, k + 1, skip_empty);
    } else {
        assert(parts.take(k) =~= parts);
    }
}


/// The parts of a specification that count when empty parts are passed
/// over: its comma-separated parts, trimmed, the empty ones left out.
pub open spec fn kept_parts(spec: Seq<char>) -> Seq<Seq<char>> {
    non_empty(split(spec, ',').map_values(|p: Seq<char>| trim(p)))
}

/// Passing over empty parts is reading only the non-empty ones.
pub proof fn lemma_skip_empty_parts(v: Seq<Seq<char>>)
    ensures
        parts_pages(v, true) == parts_pages(non_empty(v), false),
    decreases v.len(),
{
    if v.len() > 0 {
        lemma_skip_empty_parts(v.drop_last());
        if v.last().len() > 0 {
            let w = non_empty(v.drop_last()).push(v.last());
            assert(w.drop_last() =~= non_empty(v.drop_last()));
        }
    }
}

/// Every part that [`non_empty`] keeps is a non-empty part of its input.
pub proof fn lemma_non_empty_members(v: Seq<Seq<char>>)
    ensures
        forall|k: int|
            0 <= k < non_empty(v).len() ==> #[trigger] non_empty(v)[k].len() > 0 && v.contains(
                non_empty(v)[k],
            ),
    decreases v.len(),
{
    if v.len() > 0 {
        lemma_non_empty_members(v.drop_last());
        let d = non_empty(v.drop_last());
        assert forall|k: int| 0 <= k < d.len() implies v.contains(#[trigger] d[k]) by {
            let i = choose|i: int| 0 <= i < v.drop_last().len() && v.drop_last()[i] == d[k];
            assert(v[i] == d[k]);
        }
        if v.last().len() > 0 {
            assert(v[v.len() - 1] == v.last());
            assert forall|k: int| 0 <= k < non_empty(v).len() implies #[trigger] non_empty(v)[k].len()
                > 0 && v.contains(non_empty(v)[k]) by {
                if k < d.len() {
                    assert(non_empty(v)[k] == d[k]);
                }
            }
        }
    }
}

} // verus!
