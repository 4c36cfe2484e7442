//! Sorting listings for display.
//!
//! A listing keeps the server's order; sorting is the caller's choice of
//! one of three keys.  The size key ranks by unit first and magnitude
//! second, as `Size` orders; the name key is codepoint-lexicographic;
//! the date key is chronological.

use crate::listing::seg_views;
use crate::segment::SegView;
use crate::segment::Segment;
use crate::size::Size;
use crate::size::Unit;
use crate::text::str_eq;
use vstd::prelude::*;

verus! {

broadcast use vstd::seq_lib::group_to_multiset_ensures;

/// The sort key of a listing display.
#[derive(Debug, Clone, Copy, PartialEq, Eq, Structural)]
pub enum Sort {
    Size,
    Date,
    Name,
    Unsorted,
}

impl Sort {
    /// Reads a sort-key name; an unknown name is no key.
    pub fn from_str(s: &str) -> (r: Option<Sort>)
        ensures
            s@ == "size"@ ==> r == Some(Sort::Size),
            s@ == "date"@ ==> r == Some(Sort::Date),
            s@ == "name"@ ==> r == Some(Sort::Name),
            s@ == "none"@ ==> r == Some(Sort::Unsorted),
            s@ != "size"@ && s@ != "date"@ && s@ != "name"@ && s@ != "none"@ ==> r is None,
    {
        proof {
            reveal_strlit("size");
            reveal_strlit("date");
            reveal_strlit("name");
            reveal_strlit("none");
            assert("size"@ != "date"@) by {
                if "size"@ == "date"@ {
                    assert("size"@[0] == "date"@[0]);
                }
            }
            assert("size"@ != "name"@) by {
                if "size"@ == "name"@ {
                    assert("size"@[0] == "name"@[0]);
                }
            }
            assert("size"@ != "none"@) by {
                if "size"@ == "none"@ {
                    assert("size"@[0] == "none"@[0]);
                }
            }
            assert("date"@ != "name"@) by {
                if "date"@ == "name"@ {
                    assert("date"@[0] == "name"@[0]);
                }
            }
            assert("date"@ != "none"@) by {
                if "date"@ == "none"@ {
                    assert("date"@[0] == "none"@[0]);
                }
            }
            assert("name"@ != "none"@) by {
                if "name"@ == "none"@ {
                    assert("name"@[1] == "none"@[1]);
                }
            }
        }
        if str_eq(s, "size") {
            Some(Sort::Size)
        } else if str_eq(s, "date") {
            Some(Sort::Date)
        } else if str_eq(s, "name") {
            Some(Sort::Name)
        } else if str_eq(s, "none") {
            Some(Sort::Unsorted)
        } else {
            None
        }
    }
}

/// Codepoint-lexicographic order on character sequences, as byte order
/// on their UTF-8 forms would also give it.
pub open spec fn lex_le(a: Seq<char>, b: Seq<char>) -> bool
    decreases a.len(),
{
    if a.len() == 0 {
        true
    } else if b.len() == 0 {
        false
    } else if (a[0] as u32) < (b[0] as u32) {
        true
    } else if (a[0] as u32) > (b[0] as u32) {
        false
    } else {
        lex_le(a.skip(1), b.skip(1))
    }
}

/// `lex_le` is reflexive.
pub proof fn lemma_lex_le_refl(a: Seq<char>)
    ensures
        lex_le(a, a),
    decreases a.len(),
{
    if a.len() > 0 {
        lemma_lex_le_refl(a.skip(1));
    }
}

/// `lex_le` is total.
pub proof fn lemma_lex_le_total(a: Seq<char>, b: Seq<char>)
    ensures
        lex_le(a, b) || lex_le(b, a),
    decreases a.len(),
{
    if a.len() == 0 {
    } else if b.len() == 0 {
    } else if (a[0] as u32) == (b[0] as u32) {
        lemma_lex_le_total(a.skip(1), b.skip(1));
    }
}

/// `lex_le` is transitive.
pub proof fn lemma_lex_le_trans(a: Seq<char>, b: Seq<char>, c: Seq<char>)
    requires
        lex_le(a, b),
        lex_le(b, c),
    ensures
        lex_le(a, c),
    decreases a.len(),
{
    if a.len() == 0 {
    } else if b.len() == 0 {
    } else if c.len() == 0 {
    } else if (a[0] as u32) == (b[0] as u32) && (b[0] as u32) == (c[0] as u32) {
        lemma_lex_le_trans(a.skip(1), b.skip(1), c.skip(1));
    }
}

/// Executable `lex_le` on strings.
pub fn lex_le_str(a: &str, b: &str) -> (r: bool)
    ensures
        r == lex_le(a@, b@),
{
    let la = a.unicode_len();
    let lb = b.unicode_len();
    let mut i: usize = 0;
    proof {
        assert(a@.skip(0) =~= a@);
        assert(b@.skip(0) =~= b@);
    }
    while i < la && i < lb && a.get_char(i) as u32 == b.get_char(i) as u32
        invariant
            i <= la == a@.len(),
            i <= lb == b@.len(),
            lex_le(a@, b@) == lex_le(a@.skip(i as int), b@.skip(i as int)),
        decreases la - i,
    {
        proof {
            assert(a@.skip(i as int)[0] == a@[i as int]);
            assert(b@.skip(i as int)[0] == b@[i as int]);
            assert(a@.skip(i as int).skip(1) =~= a@.skip(i as int + 1));
            assert(b@.skip(i as int).skip(1) =~= b@.skip(i as int + 1));
        }
        i = i + 1;
    }
    if i == la {
        true
    } else if i == lb {
        proof {
            assert(a@.skip(i as int).len() > 0);
        }
        false
    } else {
        proof {
            assert(a@.skip(i as int)[0] == a@[i as int]);
            assert(b@.skip(i as int)[0] == b@[i as int]);
        }
        (a.get_char(i) as u32) < (b.get_char(i) as u32)
    }
}

/// A segment's size for ordering: files by their size, directories by
/// the zero size.
pub open spec fn size_or_zero(a: SegView) -> Size {
    match a.size {
        Some(s) => s,
        None => Size { centi: 0u64, unit: Unit::B },
    }
}

/// The display order of two segments under a sort key.
pub open spec fn seg_le_spec(a: SegView, b: SegView, by: Sort) -> bool {
    match by {
        Sort::Size => size_or_zero(a).spec_le(size_or_zero(b)),
        Sort::Date => a.uploaded_at.spec_le(b.uploaded_at),
        Sort::Name => lex_le(a.name, b.name),
        Sort::Unsorted => true,
    }
}

/// `seg_le_spec` is reflexive, whatever the key.
pub proof fn lemma_seg_le_refl(a: SegView, by: Sort)
    ensures
        seg_le_spec(a, a, by),
{
    lemma_lex_le_refl(a.name);
}

/// `seg_le_spec` is total, whatever the key.
pub proof fn lemma_seg_le_total(a: SegView, b: SegView, by: Sort)
    ensures
        seg_le_spec(a, b, by) || seg_le_spec(b, a, by),
{
    lemma_lex_le_total(a.name, b.name);
}

/// `seg_le_spec` is transitive, whatever the key.
pub proof fn lemma_seg_le_trans(a: SegView, b: SegView, c: SegView, by: Sort)
    requires
        seg_le_spec(a, b, by),
        seg_le_spec(b, c, by),
    ensures
        seg_le_spec(a, c, by),
{
    if by is Name {
        lemma_lex_le_trans(a.name, b.name, c.name);
    }
}

/// Executable `seg_le_spec`.
pub fn seg_le(a: &Segment, b: &Segment, by: &Sort) -> (r: bool)
    ensures
        r == seg_le_spec(a@, b@, *by),
{
    match by {
        Sort::Size => {
            let sa = match &a.size {
                Some(s) => *s,
                None => Size::zero(),
            };
            let sb = match &b.size {
                Some(s) => *s,
                None => Size::zero(),
            };
            sa.le(&sb)
        },
        Sort::Date => a.uploaded_at.le(&b.uploaded_at),
        Sort::Name => lex_le_str(a.name.as_str(), b.name.as_str()),
        Sort::Unsorted => true,
    }
}

/// Every two entries stand in order under the key.
pub open spec fn sorted_segments(s: Seq<SegView>, by: Sort) -> bool {
    forall|i: int, j: int| 0 <= i < j < s.len() ==> seg_le_spec(s[i], s[j], by)
}

/// Sorts a listing by the chosen key: the result holds exactly the same
/// entries, in order under the key; no key leaves the listing untouched.
pub fn sort_segments(v: Vec<Segment>, by: &Sort) -> (r: Vec<Segment>)
    ensures
        seg_views(r@).to_multiset() == seg_views(v@).to_multiset(),
        sorted_segments(seg_views(r@), *by),
        *by is Unsorted ==> r@ == v@,
{
    match by {
        Sort::Unsorted => {
            return v;
        },
        _ => {},
    }
    let mut src = v;
    let mut out: Vec<Segment> = Vec::new();
    let ghost all = seg_views(v@).to_multiset();
    proof {
        assert(seg_views(out@) =~= Seq::<SegView>::empty());
        assert(seg_views(out@).to_multiset().add(seg_views(src@).to_multiset()) =~= all);
    }
    while src.len() > 0
        invariant
            seg_views(out@).to_multiset().add(seg_views(src@).to_multiset()) == all,
            all == seg_views(v@).to_multiset(),
            sorted_segments(seg_views(out@), *by),
            forall|i: int, j: int|
                0 <= i < out@.len() && 0 <= j < src@.len() ==> seg_le_spec(
                    out@[i]@,
                    src@[j]@,
                    *by,
                ),
        decreases src@.len(),
    {
        let mut m: usize = 0;
        let mut k: usize = 1;
        proof {
            lemma_seg_le_refl(src@[0]@, *by);
        }
        while k < src.len()
            invariant
                m < k <= src@.len(),
                forall|t: int| 0 <= t < k ==> seg_le_spec(src@[m as int]@, src@[t]@, *by),
            decreases src@.len() - k,
        {
            if !seg_le(&src[m], &src[k], by) {
                proof {
                    lemma_seg_le_total(src@[m as int]@, src@[k as int]@, *by);
                    assert forall|t: int| 0 <= t < k implies seg_le_spec(
                        src@[k as int]@,
                        src@[t]@,
                        *by,
                    ) by {
                        lemma_seg_le_trans(src@[k as int]@, src@[m as int]@, src@[t]@, *by);
                    }
                }
                m = k;
            }
            proof {
                lemma_seg_le_refl(src@[k as int]@, *by);
            }
            k = k + 1;
        }
        let ghost old_src = src@;
        let ghost old_out = out@;
        let picked = src.remove(m);
        out.push(picked);
        proof {
            assert(seg_views(old_src.remove(m as int)) =~= seg_views(old_src).remove(m as int));
            assert(seg_views(old_out.push(picked)) =~= seg_views(old_out).push(picked@));
            assert(seg_views(src@) =~= seg_views(old_src).remove(m as int));
            assert(seg_views(out@) =~= seg_views(old_out).push(picked@));
            assert(seg_views(old_src)[m as int] == picked@);
            assert(seg_views(out@).to_multiset() =~= seg_views(old_out).to_multiset().insert(
                picked@,
            ));
            assert(seg_views(src@).to_multiset() =~= seg_views(old_src).to_multiset().remove(
                picked@,
            ));
            assert(seg_views(old_src).to_multiset().count(picked@) > 0);
            assert(seg_views(out@).to_multiset().add(seg_views(src@).to_multiset()) =~= all);
            assert forall|i: int, j: int|
                0 <= i < j < out@.len() implies seg_le_spec(
                seg_views(out@)[i],
                seg_views(out@)[j],
                *by,
            ) by {
                if j == out@.len() - 1 {
                    assert(seg_views(out@)[j] == picked@);
                    assert(old_out[i]@ == seg_views(out@)[i]);
                }
            }
            assert forall|i: int, j: int|
                0 <= i < out@.len() && 0 <= j < src@.len() implies seg_le_spec(
                out@[i]@,
                src@[j]@,
                *by,
            ) by {
                if i < out@.len() - 1 {
                    assert(out@[i] == old_out[i]);
                }
                if j < m as int {
                    assert(src@[j] == old_src[j]);
                } else {
                    assert(src@[j] == old_src[j + 1]);
                }
            }
        }
    }
    proof {
        assert(seg_views(src@) =~= Seq::<SegView>::empty());
        assert(seg_views(out@).to_multiset().add(seg_views(src@).to_multiset()) =~= seg_views(
            out@,
        ).to_multiset());
    }
    out
}

} // verus!
