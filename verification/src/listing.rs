//! The directory-listing micro-format.
//!
//! A listing page embeds one script block whose lines are call-like
//! statements, one per entry:
//!
//! ```text
//! d("<name>","<flags>","<timestamp>");
//! f("<name>","<flags>","<sizeText>","<timestamp>");
//! ```
//!
//! A field is one or more characters free of `"`.  Lines are matched
//! independently; blank and unrecognised lines are skipped.  `sizeText`
//! is `<number>&nbsp;<unit>` — splitting on the literal separator must
//! yield exactly two tokens — where `<number>` is decimal digits with an
//! optional fractional part, held in hundredths.  A bad size field or an
//! unreadable timestamp aborts the whole listing.

use crate::scrape::select_first_text;
use crate::scrape::selected_text_of;
use crate::segment::SegView;
use crate::segment::Segment;
use crate::session::is_redirect;
use crate::size::Size;
use crate::size::Unit;
use crate::size::spec_unit_of;
use crate::timestamp::Timestamp;
use crate::timestamp::parse_timestamp;
use crate::timestamp::ts_of;
use crate::text::chars_range;
use crate::text::concat_chars;
use crate::text::contains_sub;
use crate::text::find_char;
use crate::text::find_char_from;
use crate::text::find_sub;
use crate::text::find_sub_chars;
use crate::text::from_chars;
use crate::text::is_sub_at;
use crate::text::lemma_find_char_is;
use crate::text::lemma_find_sub;
use crate::text::lemma_split_char_step;
use crate::text::lemma_split_char_whole;
use crate::text::split_char;
use crate::text::split_chars;
use crate::text::to_chars;
use crate::volume::VolumeID;
use vstd::prelude::*;

verus! {

/// First position at or after `i` holding `"`, or the end of `s`.
pub open spec fn quote_end(s: Seq<char>, i: int) -> int {
    i + find_char(s.skip(i), '"')
}

/// The three fields of a directory line `d("<f1>","<f2>","<f3>");`, when
/// the line has exactly that shape with nonempty `"`-free fields.
pub open spec fn parse_dir_line(s: Seq<char>) -> Option<(Seq<char>, Seq<char>, Seq<char>)> {
    if s.len() < 3 || s[0] != 'd' || s[1] != '(' || s[2] != '"' {
        None
    } else {
        let q1 = quote_end(s, 3);
        if !(q1 > 3 && q1 + 2 < s.len() && s[q1 + 1] == ',' && s[q1 + 2] == '"') {
            None
        } else {
            let q2 = quote_end(s, q1 + 3);
            if !(q2 > q1 + 3 && q2 + 2 < s.len() && s[q2 + 1] == ',' && s[q2 + 2] == '"') {
                None
            } else {
                let q3 = quote_end(s, q2 + 3);
                if q3 > q2 + 3 && q3 + 3 == s.len() && s[q3 + 1] == ')' && s[q3 + 2] == ';' {
                    Some((s.subrange(3, q1), s.subrange(q1 + 3, q2), s.subrange(q2 + 3, q3)))
                } else {
                    None
                }
            }
        }
    }
}

/// The four fields of a file line `f("<f1>","<f2>","<f3>","<f4>");`,
/// when the line has exactly that shape with nonempty `"`-free fields.
pub open spec fn parse_file_line(s: Seq<char>) -> Option<
    (Seq<char>, Seq<char>, Seq<char>, Seq<char>),
> {
    if s.len() < 3 || s[0] != 'f' || s[1] != '(' || s[2] != '"' {
        None
    } else {
        let q1 = quote_end(s, 3);
        if !(q1 > 3 && q1 + 2 < s.len() && s[q1 + 1] == ',' && s[q1 + 2] == '"') {
            None
        } else {
            let q2 = quote_end(s, q1 + 3);
            if !(q2 > q1 + 3 && q2 + 2 < s.len() && s[q2 + 1] == ',' && s[q2 + 2] == '"') {
                None
            } else {
                let q3 = quote_end(s, q2 + 3);
                if !(q3 > q2 + 3 && q3 + 2 < s.len() && s[q3 + 1] == ',' && s[q3 + 2] == '"') {
                    None
                } else {
                    let q4 = quote_end(s, q3 + 3);
                    if q4 > q3 + 3 && q4 + 3 == s.len() && s[q4 + 1] == ')' && s[q4 + 2] == ';' {
                        Some(
                            (
                                s.subrange(3, q1),
                                s.subrange(q1 + 3, q2),
                                s.subrange(q2 + 3, q3),
                                s.subrange(q3 + 3, q4),
                            ),
                        )
                    } else {
                        None
                    }
                }
            }
        }
    }
}

/// A usable field: nonempty and free of the quote that closes it.
pub open spec fn wf_field(f: Seq<char>) -> bool {
    f.len() > 0 && forall|i: int| 0 <= i < f.len() ==> f[i] != '"'
}

/// The directory line carrying the three fields.
pub open spec fn dir_line_of(f1: Seq<char>, f2: Seq<char>, f3: Seq<char>) -> Seq<char> {
    seq!['d', '(', '"'] + f1 + seq!['"', ',', '"'] + f2 + seq!['"', ',', '"'] + f3 + seq![
        '"',
        ')',
        ';',
    ]
}

/// The grammar is unambiguous on its own output: a directory line
/// composed from well-formed fields parses back to exactly those fields.
pub proof fn lemma_dir_line_round_trip(f1: Seq<char>, f2: Seq<char>, f3: Seq<char>)
    requires
        wf_field(f1),
        wf_field(f2),
        wf_field(f3),
    ensures
        parse_dir_line(dir_line_of(f1, f2, f3)) == Some((f1, f2, f3)),
{
    let s = dir_line_of(f1, f2, f3);
    let q1 = 3 + f1.len() as int;
    let q2 = q1 + 3 + f2.len() as int;
    let q3 = q2 + 3 + f3.len() as int;
    assert(s.len() == q3 + 3);
    let tail1 = s.skip(3);
    assert forall|j: int| 0 <= j < f1.len() implies tail1[j] != '"' by {
        assert(tail1[j] == f1[j]);
    }
    assert(tail1[f1.len() as int] == '"');
    lemma_find_char_is(tail1, '"', f1.len() as int);
    assert(quote_end(s, 3) == q1);
    assert(s[q1 + 1] == ',' && s[q1 + 2] == '"');
    let tail2 = s.skip(q1 + 3);
    assert forall|j: int| 0 <= j < f2.len() implies tail2[j] != '"' by {
        assert(tail2[j] == f2[j]);
    }
    assert(tail2[f2.len() as int] == '"');
    lemma_find_char_is(tail2, '"', f2.len() as int);
    assert(quote_end(s, q1 + 3) == q2);
    assert(s[q2 + 1] == ',' && s[q2 + 2] == '"');
    let tail3 = s.skip(q2 + 3);
    assert forall|j: int| 0 <= j < f3.len() implies tail3[j] != '"' by {
        assert(tail3[j] == f3[j]);
    }
    assert(tail3[f3.len() as int] == '"');
    lemma_find_char_is(tail3, '"', f3.len() as int);
    assert(quote_end(s, q2 + 3) == q3);
    assert(s[q3 + 1] == ')' && s[q3 + 2] == ';');
    assert(s.subrange(3, q1) =~= f1);
    assert(s.subrange(q1 + 3, q2) =~= f2);
    assert(s.subrange(q2 + 3, q3) =~= f3);
}

/// The file line carrying the four fields.
pub open spec fn file_line_of(f1: Seq<char>, f2: Seq<char>, f3: Seq<char>, f4: Seq<char>) -> Seq<
    char,
> {
    seq!['f', '(', '"'] + f1 + seq!['"', ',', '"'] + f2 + seq!['"', ',', '"'] + f3 + seq![
        '"',
        ',',
        '"',
    ] + f4 + seq!['"', ')', ';']
}

/// The same for file lines: composing a line from well-formed fields and
/// parsing it back recovers exactly the fields.
pub proof fn lemma_file_line_round_trip(f1: Seq<char>, f2: Seq<char>, f3: Seq<char>, f4: Seq<char>)
    requires
        wf_field(f1),
        wf_field(f2),
        wf_field(f3),
        wf_field(f4),
    ensures
        parse_file_line(file_line_of(f1, f2, f3, f4)) == Some((f1, f2, f3, f4)),
{
    let s = file_line_of(f1, f2, f3, f4);
    let q1 = 3 + f1.len() as int;
    let q2 = q1 + 3 + f2.len() as int;
    let q3 = q2 + 3 + f3.len() as int;
    let q4 = q3 + 3 + f4.len() as int;
    assert(s.len() == q4 + 3);
    let tail1 = s.skip(3);
    assert forall|j: int| 0 <= j < f1.len() implies tail1[j] != '"' by {
        assert(tail1[j] == f1[j]);
    }
    assert(tail1[f1.len() as int] == '"');
    lemma_find_char_is(tail1, '"', f1.len() as int);
    assert(quote_end(s, 3) == q1);
    assert(s[q1 + 1] == ',' && s[q1 + 2] == '"');
    let tail2 = s.skip(q1 + 3);
    assert forall|j: int| 0 <= j < f2.len() implies tail2[j] != '"' by {
        assert(tail2[j] == f2[j]);
    }
    assert(tail2[f2.len() as int] == '"');
    lemma_find_char_is(tail2, '"', f2.len() as int);
    assert(quote_end(s, q1 + 3) == q2);
    assert(s[q2 + 1] == ',' && s[q2 + 2] == '"');
    let tail3 = s.skip(q2 + 3);
    assert forall|j: int| 0 <= j < f3.len() implies tail3[j] != '"' by {
        assert(tail3[j] == f3[j]);
    }
    assert(tail3[f3.len() as int] == '"');
    lemma_find_char_is(tail3, '"', f3.len() as int);
    assert(quote_end(s, q2 + 3) == q3);
    assert(s[q3 + 1] == ',' && s[q3 + 2] == '"');
    let tail4 = s.skip(q3 + 3);
    assert forall|j: int| 0 <= j < f4.len() implies tail4[j] != '"' by {
        assert(tail4[j] == f4[j]);
    }
    assert(tail4[f4.len() as int] == '"');
    lemma_find_char_is(tail4, '"', f4.len() as int);
    assert(quote_end(s, q3 + 3) == q4);
    assert(s[q4 + 1] == ')' && s[q4 + 2] == ';');
    assert(s.subrange(3, q1) =~= f1);
    assert(s.subrange(q1 + 3, q2) =~= f2);
    assert(s.subrange(q2 + 3, q3) =~= f3);
    assert(s.subrange(q3 + 3, q4) =~= f4);
}

/// A decimal digit.
pub open spec fn is_digit(c: char) -> bool {
    48 <= c as u32 <= 57
}

/// The value of one digit.
pub open spec fn digit_val(c: char) -> int {
    c as u32 - 48
}

/// Every character is a digit.
pub open spec fn all_digits(s: Seq<char>) -> bool {
    forall|i: int| 0 <= i < s.len() ==> is_digit(s[i])
}

/// The number a digit string denotes.
pub open spec fn digits_val(s: Seq<char>) -> int
    decreases s.len(),
{
    if s.len() == 0 {
        0
    } else {
        digits_val(s.drop_last()) * 10 + digit_val(s.last())
    }
}

/// Powers of ten.
pub open spec fn pow10(n: nat) -> int
    decreases n,
{
    if n == 0 {
        1
    } else {
        10 * pow10((n - 1) as nat)
    }
}

/// Powers of ten are positive.
pub proof fn lemma_pow10_pos(n: nat)
    ensures
        pow10(n) >= 1,
    decreases n,
{
    if n > 0 {
        lemma_pow10_pos((n - 1) as nat);
    }
}

/// Powers of ten grow with the exponent.
pub proof fn lemma_pow10_mono(a: nat, b: nat)
    requires
        a <= b,
    ensures
        pow10(a) <= pow10(b),
    decreases b,
{
    if a < b {
        lemma_pow10_mono(a, (b - 1) as nat);
        lemma_pow10_pos((b - 1) as nat);
    }
}

/// The size magnitude a number text denotes, in hundredths: the text is
/// digits with an optional `.`-separated fractional part; the integer
/// part is capped at sixteen digits so the hundredths fit in 64 bits,
/// and fractional digits beyond the second are ignored, matching the
/// two-digit precision the portal prints.
pub open spec fn magnitude_centi_of(s: Seq<char>) -> Option<u64> {
    let dot = find_char(s, '.');
    if dot == s.len() {
        if 1 <= s.len() <= 16 && all_digits(s) {
            Some((digits_val(s) * 100) as u64)
        } else {
            None
        }
    } else {
        let w = s.take(dot);
        let f = s.skip(dot + 1);
        if 1 <= w.len() <= 16 && all_digits(w) && f.len() >= 1 && all_digits(f) {
            Some((digits_val(w) * 100 + frac_centi(f)) as u64)
        } else {
            None
        }
    }
}

/// Hundredths denoted by a fractional digit string: its first two digits.
pub open spec fn frac_centi(f: Seq<char>) -> int {
    if f.len() == 1 {
        digit_val(f[0]) * 10
    } else {
        digit_val(f[0]) * 10 + digit_val(f[1])
    }
}

/// Reads `v[from..to]` as a digit string of at most sixteen digits.
fn parse_digits(v: &Vec<char>, from: usize, to: usize) -> (r: Option<u64>)
    requires
        from <= to <= v@.len(),
    ensures
        ({
            let s = v@.subrange(from as int, to as int);
            match r {
                Some(d) => 1 <= s.len() <= 16 && all_digits(s) && d as int == digits_val(s) && d
                    < 10000000000000000,
                None => !(1 <= s.len() <= 16 && all_digits(s)),
            }
        }),
{
    let ghost s = v@.subrange(from as int, to as int);
    if to - from < 1 || to - from > 16 {
        return None;
    }
    let mut acc: u64 = 0;
    let mut i: usize = from;
    proof {
        reveal_with_fuel(pow10, 17);
    }
    while i < to
        invariant
            from <= i <= to <= v@.len(),
            to - from <= 16,
            s == v@.subrange(from as int, to as int),
            all_digits(v@.subrange(from as int, i as int)),
            acc as int == digits_val(v@.subrange(from as int, i as int)),
            acc < pow10((i - from) as nat),
            pow10(16nat) == 10000000000000000,
        decreases to - i,
    {
        let c = v[i];
        let cu = c as u32;
        if !(48 <= cu && cu <= 57) {
            proof {
                assert(s[i - from] == v@[i as int]);
                assert(!is_digit(s[i - from]));
            }
            return None;
        }
        proof {
            let pre = v@.subrange(from as int, i as int);
            let nxt = v@.subrange(from as int, i + 1);
            assert(nxt.drop_last() =~= pre);
            assert(nxt.last() == v@[i as int]);
            assert(is_digit(v@[i as int]));
            assert forall|t: int| 0 <= t < nxt.len() implies is_digit(nxt[t]) by {
                if t < nxt.len() - 1 {
                    assert(nxt[t] == pre[t]);
                }
            }
            lemma_pow10_mono((i - from) as nat, 15nat);
            reveal_with_fuel(pow10, 17);
        }
        acc = acc * 10 + ((cu - 48) as u64);
        i = i + 1;
    }
    proof {
        assert(v@.subrange(from as int, i as int) =~= s);
        lemma_pow10_mono((to - from) as nat, 16nat);
    }
    Some(acc)
}

/// The size a `sizeText` field denotes: `<number>&nbsp;<unit>`, with
/// exactly one separator, the number in hundredths and the unit read by
/// name.
pub open spec fn size_of_text(s: Seq<char>) -> Option<Size> {
    let i = find_sub(s, "&nbsp;"@);
    if i < s.len() {
        let num = s.take(i);
        let rest = s.skip(i + 6);
        if contains_sub(rest, "&nbsp;"@) {
            None
        } else {
            match magnitude_centi_of(num) {
                Some(m) => Some(Size { centi: m, unit: spec_unit_of(rest) }),
                None => None,
            }
        }
    } else {
        None
    }
}

/// Reads a size field held as characters.
pub fn parse_size_text(v: &Vec<char>) -> (r: Option<Size>)
    ensures
        r == size_of_text(v@),
{
    let sep = to_chars("&nbsp;");
    proof {
        reveal_strlit("&nbsp;");
    }
    let i = find_sub_chars(v, &sep);
    if i < v.len() {
        proof {
            lemma_find_sub(v@, sep@);
        }
        let num = chars_range(v, 0, i);
        proof {
            assert(num@ =~= v@.take(i as int));
        }
        let rest = chars_range(v, i + 6, v.len());
        proof {
            assert(rest@ =~= v@.skip(i as int + 6));
        }
        let k = find_sub_chars(&rest, &sep);
        if k < rest.len() {
            proof {
                lemma_find_sub(rest@, sep@);
                assert(is_sub_at(rest@, sep@, k as int));
            }
            None
        } else {
            proof {
                lemma_find_sub(rest@, sep@);
                assert forall|j: int| !is_sub_at(rest@, sep@, j) by {
                    if 0 <= j < rest@.len() {
                    } else {
                        if j >= rest@.len() {
                            assert(j + sep@.len() > rest@.len());
                        }
                    }
                }
            }
            match parse_digits_magnitude(&num) {
                Some(m) => Some(Size::new(m, Unit::from_chars(&rest))),
                None => None,
            }
        }
    } else {
        None
    }
}

/// Reads a number text as a magnitude in hundredths.
pub fn parse_digits_magnitude(v: &Vec<char>) -> (r: Option<u64>)
    ensures
        r == magnitude_centi_of(v@),
{
    let dot = find_char_from(v, 0, '.');
    proof {
        assert(v@.skip(0) =~= v@);
    }
    if dot == v.len() {
        match parse_digits(v, 0, v.len()) {
            Some(d) => {
                proof {
                    assert(v@.subrange(0, v@.len() as int) =~= v@);
                }
                Some(d * 100)
            },
            None => {
                proof {
                    assert(v@.subrange(0, v@.len() as int) =~= v@);
                }
                None
            },
        }
    } else {
        let ghost w = v@.take(dot as int);
        let ghost f = v@.skip(dot as int + 1);
        proof {
            assert(v@.subrange(0, dot as int) =~= w);
        }
        match parse_digits(v, 0, dot) {
            Some(d) => {
                let flen = v.len() - (dot + 1);
                if flen < 1 {
                    return None;
                }
                let mut j: usize = dot + 1;
                while j < v.len()
                    invariant
                        dot + 1 <= j <= v@.len(),
                        f == v@.skip(dot as int + 1),
                        dot < v@.len(),
                        dot as int == find_char(v@, '.'),
                        forall|t: int| 0 <= t < j - dot - 1 ==> is_digit(f[t]),
                    decreases v@.len() - j,
                {
                    let cu = v[j] as u32;
                    if !(48 <= cu && cu <= 57) {
                        proof {
                            assert(f[j - dot - 1] == v@[j as int]);
                            assert(!is_digit(f[j - dot - 1]));
                        }
                        return None;
                    }
                    proof {
                        assert(f[j - dot - 1] == v@[j as int]);
                    }
                    j = j + 1;
                }
                proof {
                    assert forall|t: int| 0 <= t < f.len() implies is_digit(f[t]) by {}
                    assert(f[0] == v@[dot as int + 1]);
                    assert(dot + 2 < v@.len() ==> f[1] == v@[dot as int + 2]);
                }
                let d0 = (v[dot + 1] as u32 - 48) as u64;
                let fc: u64 = if dot + 2 < v.len() {
                    let d1 = (v[dot + 2] as u32 - 48) as u64;
                    d0 * 10 + d1
                } else {
                    proof {
                        assert(f.len() == 1);
                    }
                    d0 * 10
                };
                Some(d * 100 + fc)
            },
            None => None,
        }
    }
}

/// Reads a line as a directory entry, returning its fields.
pub fn parse_dir_line_c(v: &Vec<char>) -> (r: Option<(Vec<char>, Vec<char>, Vec<char>)>)
    ensures
        match r {
            Some(t) => parse_dir_line(v@) == Some((t.0@, t.1@, t.2@)),
            None => parse_dir_line(v@) is None,
        },
{
    if v.len() < 3 {
        return None;
    }
    if !(v[0] == 'd' && v[1] == '(' && v[2] == '"') {
        return None;
    }
    let q1 = find_char_from(v, 3, '"');
    if !(q1 > 3 && q1 < v.len() - 2) {
        return None;
    }
    if !(v[q1 + 1] == ',' && v[q1 + 2] == '"') {
        return None;
    }
    let q2 = find_char_from(v, q1 + 3, '"');
    if !(q2 > q1 + 3 && q2 < v.len() - 2) {
        return None;
    }
    if !(v[q2 + 1] == ',' && v[q2 + 2] == '"') {
        return None;
    }
    let q3 = find_char_from(v, q2 + 3, '"');
    if !(q3 > q2 + 3 && v.len() - q3 == 3) {
        return None;
    }
    if !(v[q3 + 1] == ')' && v[q3 + 2] == ';') {
        return None;
    }
    let f1 = chars_range(v, 3, q1);
    let f2 = chars_range(v, q1 + 3, q2);
    let f3 = chars_range(v, q2 + 3, q3);
    Some((f1, f2, f3))
}

/// Reads a line as a file entry, returning its fields.
pub fn parse_file_line_c(v: &Vec<char>) -> (r: Option<(Vec<char>, Vec<char>, Vec<char>, Vec<char>)>)
    ensures
        match r {
            Some(t) => parse_file_line(v@) == Some((t.0@, t.1@, t.2@, t.3@)),
            None => parse_file_line(v@) is None,
        },
{
    if v.len() < 3 {
        return None;
    }
    if !(v[0] == 'f' && v[1] == '(' && v[2] == '"') {
        return None;
    }
    let q1 = find_char_from(v, 3, '"');
    if !(q1 > 3 && q1 < v.len() - 2) {
        return None;
    }
    if !(v[q1 + 1] == ',' && v[q1 + 2] == '"') {
        return None;
    }
    let q2 = find_char_from(v, q1 + 3, '"');
    if !(q2 > q1 + 3 && q2 < v.len() - 2) {
        return None;
    }
    if !(v[q2 + 1] == ',' && v[q2 + 2] == '"') {
        return None;
    }
    let q3 = find_char_from(v, q2 + 3, '"');
    if !(q3 > q2 + 3 && q3 < v.len() - 2) {
        return None;
    }
    if !(v[q3 + 1] == ',' && v[q3 + 2] == '"') {
        return None;
    }
    let q4 = find_char_from(v, q3 + 3, '"');
    if !(q4 > q3 + 3 && v.len() - q4 == 3) {
        return None;
    }
    if !(v[q4 + 1] == ')' && v[q4 + 2] == ';') {
        return None;
    }
    let f1 = chars_range(v, 3, q1);
    let f2 = chars_range(v, q1 + 3, q2);
    let f3 = chars_range(v, q2 + 3, q3);
    let f4 = chars_range(v, q3 + 3, q4);
    Some((f1, f2, f3, f4))
}

/// The request path joined with an entry name, as the listing reports
/// paths: a separator is inserted unless the path is empty or already
/// ends with one.
pub open spec fn join_path(p: Seq<char>, name: Seq<char>) -> Seq<char> {
    if p.len() == 0 {
        name
    } else if p[p.len() - 1] == '/' {
        p + name
    } else {
        p + "/"@ + name
    }
}

/// Executable form of `join_path`.
pub fn join_path_c(p: &Vec<char>, name: &Vec<char>) -> (r: Vec<char>)
    ensures
        r@ == join_path(p@, name@),
{
    if p.len() == 0 {
        chars_range(name, 0, name.len())
    } else if p[p.len() - 1] == '/' {
        concat_chars(p, name)
    } else {
        let slash = to_chars("/");
        let head = concat_chars(p, &slash);
        concat_chars(&head, name)
    }
}

/// The segment a directory line denotes.
pub open spec fn seg_of_dir(name: Seq<char>, ts: Timestamp, path: Seq<char>, vol: Seq<char>) -> SegView {
    SegView {
        name,
        path: join_path(path, name),
        size: None,
        volume_id: vol,
        uploaded_at: ts,
        is_file: false,
        is_dir: true,
    }
}

/// The segment a file line denotes.
pub open spec fn seg_of_file(
    name: Seq<char>,
    size: Size,
    ts: Timestamp,
    path: Seq<char>,
    vol: Seq<char>,
) -> SegView {
    SegView {
        name,
        path: join_path(path, name),
        size: Some(size),
        volume_id: vol,
        uploaded_at: ts,
        is_file: true,
        is_dir: false,
    }
}

/// Why a listing call failed.
#[derive(Debug, Clone)]
pub enum ListError {
    /// The listing request was redirected: no permission on the path,
    /// which the error carries.
    PermissionDenied(String),
    /// Any other non-success response, or a page without a listing block.
    Unknown,
    /// A file line whose size field is not `<number>&nbsp;<unit>`.
    MalformedSizeField,
    /// A line whose timestamp does not parse; carries the line.
    TimestampParseFailure(String),
}

/// The mathematical shape of a `ListError`.
pub ghost enum ListErrV {
    PermissionDenied(Seq<char>),
    Unknown,
    MalformedSizeField,
    TimestampParseFailure(Seq<char>),
}

impl View for ListError {
    type V = ListErrV;

    open spec fn view(&self) -> ListErrV {
        match self {
            ListError::PermissionDenied(p) => ListErrV::PermissionDenied(p@),
            ListError::Unknown => ListErrV::Unknown,
            ListError::MalformedSizeField => ListErrV::MalformedSizeField,
            ListError::TimestampParseFailure(l) => ListErrV::TimestampParseFailure(l@),
        }
    }
}

/// The views of a sequence of segments.
pub open spec fn seg_views(v: Seq<Segment>) -> Seq<SegView> {
    v.map_values(|s: Segment| s@)
}

/// What one line of the listing block contributes: nothing for a blank
/// or unrecognised line, one segment for a matched entry; a bad size
/// field or timestamp is an error, the size field checked before the
/// timestamp.
pub open spec fn line_items(line: Seq<char>, path: Seq<char>, vol: Seq<char>) -> Result<
    Seq<SegView>,
    ListErrV,
> {
    if line.len() == 0 {
        Ok(seq![])
    } else {
        let dpart: Result<Seq<SegView>, ListErrV> = match parse_dir_line(line) {
            Some(t) => match ts_of(t.2) {
                Some(ts) => Ok(seq![seg_of_dir(t.0, ts, path, vol)]),
                None => Err(ListErrV::TimestampParseFailure(line)),
            },
            None => Ok(seq![]),
        };
        let fpart: Result<Seq<SegView>, ListErrV> = match parse_file_line(line) {
            Some(t) => match size_of_text(t.2) {
                Some(sz) => match ts_of(t.3) {
                    Some(ts) => Ok(seq![seg_of_file(t.0, sz, ts, path, vol)]),
                    None => Err(ListErrV::TimestampParseFailure(line)),
                },
                None => Err(ListErrV::MalformedSizeField),
            },
            None => Ok(seq![]),
        };
        match (dpart, fpart) {
            (Ok(a), Ok(b)) => Ok(a + b),
            (Err(e), _) => Err(e),
            (_, Err(e)) => Err(e),
        }
    }
}

/// What a whole listing block denotes: the concatenated contributions of
/// its lines, or the first error.
pub open spec fn listing_of(lines: Seq<Seq<char>>, path: Seq<char>, vol: Seq<char>) -> Result<
    Seq<SegView>,
    ListErrV,
>
    decreases lines.len(),
{
    if lines.len() == 0 {
        Ok(seq![])
    } else {
        match line_items(lines[0], path, vol) {
            Ok(h) => match listing_of(lines.skip(1), path, vol) {
                Ok(t) => Ok(h + t),
                Err(e) => Err(e),
            },
            Err(e) => Err(e),
        }
    }
}

/// The specification's two-entry block: a `docs` directory line followed
/// by an `a.txt` file line of size `12&nbsp;KB` denotes, for every
/// request path and volume, exactly a sizeless directory segment and
/// then a `(12, KB)` file segment, in that order, each at the joined
/// path — with the upload times whatever the two fixed-format timestamp
/// texts denote.
#[verifier::rlimit(50)]
pub proof fn lemma_two_entry_block(path: Seq<char>, vol: Seq<char>, t1: Timestamp, t2: Timestamp)
    requires
        ts_of("Mon Jan  2 03:04:05 2023"@) == Some(t1),
        ts_of("Mon Jan  2 03:04:06 2023"@) == Some(t2),
    ensures
        listing_of(
            split_char(
                "d(\"docs\",\"0\",\"Mon Jan  2 03:04:05 2023\");"@ + seq!['\n']
                    + "f(\"a.txt\",\"0\",\"12&nbsp;KB\",\"Mon Jan  2 03:04:06 2023\");"@,
                '\n',
            ),
            path,
            vol,
        ) == Ok::<Seq<SegView>, ListErrV>(
            seq![
                seg_of_dir("docs"@, t1, path, vol),
                seg_of_file("a.txt"@, Size { centi: 1200u64, unit: Unit::KB }, t2, path, vol),
            ],
        ),
{
    reveal_strlit("d(\"docs\",\"0\",\"Mon Jan  2 03:04:05 2023\");");
    reveal_strlit("f(\"a.txt\",\"0\",\"12&nbsp;KB\",\"Mon Jan  2 03:04:06 2023\");");
    reveal_strlit("docs");
    reveal_strlit("a.txt");
    reveal_strlit("0");
    reveal_strlit("Mon Jan  2 03:04:05 2023");
    reveal_strlit("Mon Jan  2 03:04:06 2023");
    reveal_strlit("12&nbsp;KB");
    reveal_strlit("&nbsp;");
    reveal_strlit("12");
    reveal_strlit("KB");
    reveal_strlit("B");
    let l1 = "d(\"docs\",\"0\",\"Mon Jan  2 03:04:05 2023\");"@;
    let l2 = "f(\"a.txt\",\"0\",\"12&nbsp;KB\",\"Mon Jan  2 03:04:06 2023\");"@;
    // The block splits into exactly the two lines.
    assert forall|j: int| 0 <= j < l1.len() implies l1[j] != '\n' by {}
    assert forall|j: int| 0 <= j < l2.len() implies l2[j] != '\n' by {}
    let mid = seq!['\n'] + l2;
    lemma_split_char_step(l1, mid, '\n');
    assert(mid.skip(1) =~= l2);
    lemma_split_char_whole(l2, '\n');
    let lines = split_char(l1 + mid, '\n');
    assert(lines =~~= seq![l1, l2]);
    // The directory line parses to its three fields.
    assert(wf_field("docs"@)) by {
        assert forall|j: int| 0 <= j < "docs"@.len() implies "docs"@[j] != '"' by {}
    }
    assert(wf_field("0"@)) by {
        assert forall|j: int| 0 <= j < "0"@.len() implies "0"@[j] != '"' by {}
    }
    assert(wf_field("Mon Jan  2 03:04:05 2023"@)) by {
        assert forall|j: int|
            0 <= j < "Mon Jan  2 03:04:05 2023"@.len() implies "Mon Jan  2 03:04:05 2023"@[j]
            != '"' by {}
    }
    assert(wf_field("Mon Jan  2 03:04:06 2023"@)) by {
        assert forall|j: int|
            0 <= j < "Mon Jan  2 03:04:06 2023"@.len() implies "Mon Jan  2 03:04:06 2023"@[j]
            != '"' by {}
    }
    assert(wf_field("12&nbsp;KB"@)) by {
        assert forall|j: int| 0 <= j < "12&nbsp;KB"@.len() implies "12&nbsp;KB"@[j] != '"' by {}
    }
    assert(l1 =~= dir_line_of("docs"@, "0"@, "Mon Jan  2 03:04:05 2023"@));
    lemma_dir_line_round_trip("docs"@, "0"@, "Mon Jan  2 03:04:05 2023"@);
    assert(parse_file_line(l1) is None);
    // Its contribution is the one directory segment.
    let seg1 = seg_of_dir("docs"@, t1, path, vol);
    assert(line_items(l1, path, vol) == Ok::<Seq<SegView>, ListErrV>(seq![seg1])) by {
        assert(seq![seg1] + Seq::<SegView>::empty() =~= seq![seg1]);
    }
    // The file line parses to its four fields.
    assert(l2 =~= file_line_of("a.txt"@, "0"@, "12&nbsp;KB"@, "Mon Jan  2 03:04:06 2023"@));
    lemma_file_line_round_trip("a.txt"@, "0"@, "12&nbsp;KB"@, "Mon Jan  2 03:04:06 2023"@);
    assert(parse_dir_line(l2) is None);
    // The size text splits on its one separator into `12` and `KB`.
    let st = "12&nbsp;KB"@;
    let sep = "&nbsp;"@;
    lemma_find_sub(st, sep);
    assert(st.subrange(2, 2 + sep.len() as int) =~= sep);
    assert(is_sub_at(st, sep, 2));
    assert(!is_sub_at(st, sep, 0)) by {
        if is_sub_at(st, sep, 0) {
            assert(st.subrange(0, sep.len() as int)[0] == sep[0]);
        }
    }
    assert(!is_sub_at(st, sep, 1)) by {
        if is_sub_at(st, sep, 1) {
            assert(st.subrange(1, 1 + sep.len() as int)[0] == sep[0]);
        }
    }
    assert(find_sub(st, sep) == 2) by {
        let f = find_sub(st, sep);
        if f < 2 {
            assert(is_sub_at(st, sep, f));
        }
        if f > 2 {
            assert(!is_sub_at(st, sep, 2));
        }
    }
    let num = st.take(2);
    let rest = st.skip(8);
    assert(num =~= "12"@);
    assert(rest =~= "KB"@);
    assert(!contains_sub(rest, sep)) by {
        assert forall|i: int| !is_sub_at(rest, sep, i) by {
            assert(rest.len() < sep.len());
        }
    }
    // `12` denotes twelve hundred hundredths.
    assert forall|j: int| 0 <= j < num.len() implies num[j] != '.' by {}
    lemma_find_char_is(num, '.', 2);
    assert(all_digits(num)) by {
        assert forall|j: int| 0 <= j < num.len() implies is_digit(num[j]) by {}
    }
    assert(digits_val(num) == 12) by {
        assert(num.drop_last() =~= seq!['1']);
        assert(seq!['1'].drop_last() =~= Seq::<char>::empty());
        assert(digits_val(Seq::<char>::empty()) == 0);
        assert(digits_val(seq!['1']) == 1);
    }
    assert(magnitude_centi_of(num) == Some(1200u64));
    assert(rest != "B"@);
    assert(spec_unit_of(rest) == Unit::KB);
    assert(size_of_text(st) == Some(Size { centi: 1200u64, unit: Unit::KB }));
    // The file line's contribution is the one file segment.
    let seg2 = seg_of_file("a.txt"@, Size { centi: 1200u64, unit: Unit::KB }, t2, path, vol);
    assert(line_items(l2, path, vol) == Ok::<Seq<SegView>, ListErrV>(seq![seg2])) by {
        assert(Seq::<SegView>::empty() + seq![seg2] =~= seq![seg2]);
    }
    // The whole block: the two contributions, in order.
    assert(lines.skip(1) =~~= seq![l2]);
    assert(seq![l2].skip(1) =~~= Seq::<Seq<char>>::empty());
    assert(listing_of(seq![l2].skip(1), path, vol) == Ok::<Seq<SegView>, ListErrV>(
        Seq::<SegView>::empty(),
    ));
    assert(seq![seg2] + Seq::<SegView>::empty() =~= seq![seg2]);
    assert(listing_of(lines.skip(1), path, vol) == Ok::<Seq<SegView>, ListErrV>(seq![seg2]));
    assert(seq![seg1] + seq![seg2] =~= seq![seg1, seg2]);
    assert(lines[0] == l1);
    assert(listing_of(lines, path, vol) == Ok::<Seq<SegView>, ListErrV>(seq![seg1, seg2]));
    assert(l1 + seq!['\n'] + l2 =~= l1 + mid);
}

/// Reads one line into its segments.
fn parse_line(line: &Vec<char>, path: &Vec<char>, vol: &String) -> (r: Result<
    Vec<Segment>,
    ListError,
>)
    ensures
        match r {
            Ok(segs) => line_items(line@, path@, vol@) == Ok::<Seq<SegView>, ListErrV>(seg_views(segs@)),
            Err(e) => line_items(line@, path@, vol@) == Err::<Seq<SegView>, ListErrV>(e@),
        },
{
    let mut segs: Vec<Segment> = Vec::new();
    if line.len() == 0 {
        proof {
            assert(seg_views(segs@) =~= Seq::<SegView>::empty());
        }
        return Ok(segs);
    }
    match parse_dir_line_c(line) {
        Some(t) => {
            let (name_c, _flags, ts_c) = t;
            let ts_s = from_chars(&ts_c);
            match parse_timestamp(ts_s.as_str()) {
                Some(ts) => {
                    let name = from_chars(&name_c);
                    let joined = join_path_c(path, &name_c);
                    let seg = Segment::from_dir(name, from_chars(&joined), vol.clone(), ts);
                    let ghost before = segs@;
                    segs.push(seg);
                    proof {
                        assert(seg_views(segs@) =~= seg_views(before) + seq![seg@]);
                        assert(seg_views(before) =~= Seq::<SegView>::empty());
                    }
                },
                None => {
                    return Err(ListError::TimestampParseFailure(from_chars(line)));
                },
            }
        },
        None => {},
    }
    let ghost dirpart = seg_views(segs@);
    match parse_file_line_c(line) {
        Some(t) => {
            let (name_c, _flags, size_c, ts_c) = t;
            match parse_size_text(&size_c) {
                Some(sz) => {
                    let ts_s = from_chars(&ts_c);
                    match parse_timestamp(ts_s.as_str()) {
                        Some(ts) => {
                            let name = from_chars(&name_c);
                            let joined = join_path_c(path, &name_c);
                            let seg = Segment::from_file(
                                name,
                                from_chars(&joined),
                                sz,
                                vol.clone(),
                                ts,
                            );
                            let ghost before = segs@;
                            segs.push(seg);
                            proof {
                                assert(seg_views(segs@) =~= seg_views(before) + seq![seg@]);
                            }
                        },
                        None => {
                            return Err(ListError::TimestampParseFailure(from_chars(line)));
                        },
                    }
                },
                None => {
                    return Err(ListError::MalformedSizeField);
                },
            }
        },
        None => {
            proof {
                assert(seg_views(segs@) =~= dirpart + Seq::<SegView>::empty());
            }
        },
    }
    Ok(segs)
}

/// Parses a listing block: each line contributes its entries, in the
/// server's order; path and volume give every produced segment its
/// `path` and `volume_id`.
pub fn parse_listing(script: &str, path: &str, volume: &VolumeID) -> (r: Result<
    Vec<Segment>,
    ListError,
>)
    ensures
        match r {
            Ok(segs) => listing_of(split_char(script@, '\n'), path@, volume.spec_str())
                == Ok::<Seq<SegView>, ListErrV>(seg_views(segs@)),
            Err(e) => listing_of(split_char(script@, '\n'), path@, volume.spec_str())
                == Err::<Seq<SegView>, ListErrV>(e@),
        },
{
    let sc = to_chars(script);
    let lines = split_chars(&sc, '\n');
    let path_c = to_chars(path);
    let vol = volume.format();
    let ghost lseq = split_char(script@, '\n');
    let ghost pv = path@;
    let ghost vv = volume.spec_str();
    let mut segs: Vec<Segment> = Vec::new();
    let mut i: usize = 0;
    proof {
        assert(lseq.skip(0) =~~= lseq);
        assert(seg_views(segs@) =~= Seq::<SegView>::empty());
        assert(lines.deep_view().len() == lines@.len());
    }
    while i < lines.len()
        invariant
            i <= lines@.len(),
            lines.deep_view() == lseq,
            lseq.len() == lines@.len(),
            lseq == split_char(script@, '\n'),
            pv == path@,
            vv == volume.spec_str(),
            path_c@ == pv,
            vol@ == vv,
            match listing_of(lseq.skip(i as int), pv, vv) {
                Ok(t) => listing_of(lseq, pv, vv) == Ok::<Seq<SegView>, ListErrV>(seg_views(segs@) + t),
                Err(e) => listing_of(lseq, pv, vv) == Err::<Seq<SegView>, ListErrV>(e),
            },
        decreases lines@.len() - i,
    {
        proof {
            assert(lines.deep_view()[i as int] == lines@[i as int].deep_view());
            assert(lines@[i as int].deep_view() =~= lines@[i as int]@);
            assert(lseq.skip(i as int)[0] == lseq[i as int]);
            assert(lseq.skip(i as int).skip(1) =~~= lseq.skip(i as int + 1));
        }
        match parse_line(&lines[i], &path_c, &vol) {
            Ok(mut new_segs) => {
                let ghost before = segs@;
                let ghost fresh = new_segs@;
                segs.append(&mut new_segs);
                proof {
                    assert(segs@ =~= before + fresh);
                    assert(seg_views(before + fresh) =~= seg_views(before) + seg_views(fresh));
                    if listing_of(lseq.skip(i as int + 1), pv, vv) is Ok {
                        let t = listing_of(lseq.skip(i as int + 1), pv, vv)->Ok_0;
                        assert((seg_views(before) + seg_views(fresh)) + t =~= seg_views(before) + (
                        seg_views(fresh) + t));
                    }
                }
            },
            Err(e) => {
                return Err(e);
            },
        }
        i = i + 1;
    }
    proof {
        assert(lseq.skip(i as int) =~~= Seq::<Seq<char>>::empty());
        assert(seg_views(segs@) + Seq::<SegView>::empty() =~= seg_views(segs@));
    }
    Ok(segs)
}

/// Classifies the transport status of a listing request: only success
/// proceeds to parsing; any redirect is a permission failure on the
/// path; anything else is unknown.
pub fn classify_list_status(status: u16, path: &str) -> (r: Option<ListError>)
    ensures
        match r {
            None => status == 200,
            Some(e) => status != 200 && e@ == (if is_redirect(status) {
                ListErrV::PermissionDenied(path@)
            } else {
                ListErrV::Unknown
            }),
        },
{
    if status == 200 {
        None
    } else if 300 <= status && status <= 399 {
        Some(ListError::PermissionDenied(path.to_owned()))
    } else {
        Some(ListError::Unknown)
    }
}

/// The fixed query pairs of a listing request for `path` on `volume`.
pub fn list_query_pairs(path: &str, volume: &VolumeID) -> (r: Vec<(String, String)>)
    ensures
        r@.len() == 8,
        r@[0].0@ == "t"@ && r@[0].1@ == "p"@,
        r@[1].0@ == "v"@ && r@[1].1@ == volume.spec_str(),
        r@[2].0@ == "si"@ && r@[2].1@ == "0"@,
        r@[3].0@ == "ri"@ && r@[3].1@ == "0"@,
        r@[4].0@ == "pi"@ && r@[4].1@ == "0"@,
        r@[5].0@ == "sb"@ && r@[5].1@ == "name"@,
        r@[6].0@ == "so"@ && r@[6].1@ == "asc"@,
        r@[7].0@ == "dir"@ && r@[7].1@ == path@,
{
    let mut r: Vec<(String, String)> = Vec::new();
    r.push((String::from_str("t"), String::from_str("p")));
    r.push((String::from_str("v"), volume.format()));
    r.push((String::from_str("si"), String::from_str("0")));
    r.push((String::from_str("ri"), String::from_str("0")));
    r.push((String::from_str("pi"), String::from_str("0")));
    r.push((String::from_str("sb"), String::from_str("name")));
    r.push((String::from_str("so"), String::from_str("asc")));
    r.push((String::from_str("dir"), path.to_owned()));
    r
}

/// Reads a listing page: the page must hold the one embedded script
/// block, whose lines are then parsed.
pub fn parse_listing_page(html: &str, path: &str, volume: &VolumeID) -> (r: Result<
    Vec<Segment>,
    ListError,
>)
    ensures
        match selected_text_of(html@, "table#table_wfb_5 > tbody > script"@) {
            None => r matches Err(e) && e@ == ListErrV::Unknown,
            Some(script) => match r {
                Ok(segs) => listing_of(split_char(script, '\n'), path@, volume.spec_str())
                    == Ok::<Seq<SegView>, ListErrV>(seg_views(segs@)),
                Err(e) => listing_of(split_char(script, '\n'), path@, volume.spec_str())
                    == Err::<Seq<SegView>, ListErrV>(e@),
            },
        },
{
    match select_first_text(html, "table#table_wfb_5 > tbody > script") {
        Some(script) => parse_listing(script.as_str(), path, volume),
        None => Err(ListError::Unknown),
    }
}

} // verus!
