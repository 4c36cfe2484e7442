//! Download requests and the download outcome classifier.
//!
//! The server wants the two path pieces of a download URL encoded with
//! different alphabets: the filename escapes controls and `+` on top of
//! the non-ASCII bytes, while the directory — its slashes first turned to
//! backslashes — escapes everything but ASCII letters and digits.  That
//! asymmetry is the server's requirement and is reproduced exactly.
//!
//! A download answers 200 even on failure: an HTML body carrying one of
//! two fixed phrases means the file is missing or forbidden; any other
//! body is the file itself.

use crate::text::chars_range;
use crate::text::contains_bytes;
use crate::text::contains_sub;
use crate::text::from_chars;
use crate::text::to_chars;
use crate::volume::VolumeID;
use vstd::prelude::*;
use vstd::string::StringSliceAdditionalSpecFns;
use vstd::utf8::encode_utf8;

verus! {

/// The uppercase hex digit for `n` in `0..16`.
pub open spec fn hex_digit_char(n: int) -> char {
    if n < 10 {
        ((48 + n) as u8) as char
    } else {
        ((55 + n) as u8) as char
    }
}

/// The three-character escape `%XX` of one byte, uppercase.
pub open spec fn pct_escape(b: u8) -> Seq<char> {
    seq!['%', hex_digit_char(b as int / 16), hex_digit_char(b as int % 16)]
}

/// Bytes escaped in a filename: C0 controls, DEL, `+`, and everything
/// beyond ASCII.
pub open spec fn in_filename_set(b: u8) -> bool {
    b < 0x20 || b == 0x7f || b == 0x2b || b >= 0x80
}

/// Bytes escaped in the directory component: everything but ASCII
/// letters and digits.
pub open spec fn in_path_set(b: u8) -> bool {
    !((0x30 <= b && b <= 0x39) || (0x41 <= b && b <= 0x5a) || (0x61 <= b && b <= 0x7a))
}

/// One byte as it appears in the encoded output.
pub open spec fn encoded_byte(b: u8, escape: bool) -> Seq<char> {
    if escape {
        pct_escape(b)
    } else {
        seq![b as char]
    }
}

/// The filename encoding of a byte string.
pub open spec fn encode_filename_seq(b: Seq<u8>) -> Seq<char>
    decreases b.len(),
{
    if b.len() == 0 {
        seq![]
    } else {
        encode_filename_seq(b.drop_last()) + encoded_byte(b.last(), in_filename_set(b.last()))
    }
}

/// The directory-component encoding of a byte string.
pub open spec fn encode_path_seq(b: Seq<u8>) -> Seq<char>
    decreases b.len(),
{
    if b.len() == 0 {
        seq![]
    } else {
        encode_path_seq(b.drop_last()) + encoded_byte(b.last(), in_path_set(b.last()))
    }
}

/// Relies on percent_encoding's `percent_encode_byte`: the unconditional
/// three-character uppercase-hex escape of one byte.
#[verifier::external_body]
fn escape_byte(b: u8) -> (r: &'static str)
    ensures
        r@ == pct_escape(b),
{
    percent_encoding::percent_encode_byte(b)
}

/// Percent-encodes a filename: C0 controls, DEL, `+` and non-ASCII
/// bytes are escaped, every other byte stands as itself.
pub fn encode_filename(b: &[u8]) -> (r: String)
    ensures
        r@ == encode_filename_seq(b@),
{
    let mut out: Vec<char> = Vec::new();
    let mut i: usize = 0;
    while i < b.len()
        invariant
            i <= b@.len(),
            out@ == encode_filename_seq(b@.take(i as int)),
        decreases b@.len() - i,
    {
        let c = b[i];
        proof {
            assert(b@.take(i + 1).drop_last() =~= b@.take(i as int));
            assert(b@.take(i + 1).last() == b@[i as int]);
        }
        if c < 0x20 || c == 0x7f || c == 0x2b || c >= 0x80 {
            let e = escape_byte(c);
            out.push(e.get_char(0));
            out.push(e.get_char(1));
            out.push(e.get_char(2));
            proof {
                assert(out@ =~= encode_filename_seq(b@.take(i as int)) + pct_escape(c));
            }
        } else {
            out.push(c as char);
            proof {
                assert(out@ =~= encode_filename_seq(b@.take(i as int)) + seq![c as char]);
            }
        }
        i = i + 1;
    }
    proof {
        assert(b@.take(i as int) =~= b@);
    }
    from_chars(&out)
}

/// Percent-encodes the directory component: everything but ASCII
/// letters and digits is escaped.
pub fn encode_path_component(b: &[u8]) -> (r: String)
    ensures
        r@ == encode_path_seq(b@),
{
    let mut out: Vec<char> = Vec::new();
    let mut i: usize = 0;
    while i < b.len()
        invariant
            i <= b@.len(),
            out@ == encode_path_seq(b@.take(i as int)),
        decreases b@.len() - i,
    {
        let c = b[i];
        proof {
            assert(b@.take(i + 1).drop_last() =~= b@.take(i as int));
            assert(b@.take(i + 1).last() == b@[i as int]);
        }
        if (0x30 <= c && c <= 0x39) || (0x41 <= c && c <= 0x5a) || (0x61 <= c && c <= 0x7a) {
            out.push(c as char);
            proof {
                assert(out@ =~= encode_path_seq(b@.take(i as int)) + seq![c as char]);
            }
        } else {
            let e = escape_byte(c);
            out.push(e.get_char(0));
            out.push(e.get_char(1));
            out.push(e.get_char(2));
            proof {
                assert(out@ =~= encode_path_seq(b@.take(i as int)) + pct_escape(c));
            }
        }
        i = i + 1;
    }
    proof {
        assert(b@.take(i as int) =~= b@);
    }
    from_chars(&out)
}

/// `s` with every leading and trailing `/` removed.
pub open spec fn trim_slashes(s: Seq<char>) -> Seq<char> {
    drop_trailing_slashes(drop_leading_slashes(s))
}

/// `s` with every leading `/` removed.
pub open spec fn drop_leading_slashes(s: Seq<char>) -> Seq<char>
    decreases s.len(),
{
    if s.len() > 0 && s[0] == '/' {
        drop_leading_slashes(s.skip(1))
    } else {
        s
    }
}

/// `s` with every trailing `/` removed.
pub open spec fn drop_trailing_slashes(s: Seq<char>) -> Seq<char>
    decreases s.len(),
{
    if s.len() > 0 && s.last() == '/' {
        drop_trailing_slashes(s.drop_last())
    } else {
        s
    }
}

/// `s` with every `/` turned into `\`.
pub open spec fn backslashed(s: Seq<char>) -> Seq<char> {
    s.map_values(|c: char| if c == '/' { '\\' } else { c })
}

/// Executable form of `trim_slashes`.
fn trim_slashes_c(v: &Vec<char>) -> (r: Vec<char>)
    ensures
        r@ == trim_slashes(v@),
{
    let mut lo: usize = 0;
    proof {
        assert(v@.skip(0) =~= v@);
    }
    while lo < v.len() && v[lo] == '/'
        invariant
            lo <= v@.len(),
            drop_leading_slashes(v@) == drop_leading_slashes(v@.skip(lo as int)),
        decreases v@.len() - lo,
    {
        proof {
            assert(v@.skip(lo as int)[0] == v@[lo as int]);
            assert(v@.skip(lo as int).skip(1) =~= v@.skip(lo as int + 1));
        }
        lo = lo + 1;
    }
    proof {
        if lo < v.len() {
            assert(v@.skip(lo as int)[0] == v@[lo as int]);
        }
        assert(drop_leading_slashes(v@.skip(lo as int)) == v@.skip(lo as int));
    }
    let mut hi: usize = v.len();
    while hi > lo && v[hi - 1] == '/'
        invariant
            lo <= hi <= v@.len(),
            drop_leading_slashes(v@) == v@.skip(lo as int),
            drop_trailing_slashes(v@.skip(lo as int)) == drop_trailing_slashes(
                v@.subrange(lo as int, hi as int),
            ),
        decreases hi,
    {
        proof {
            let cur = v@.subrange(lo as int, hi as int);
            assert(cur.last() == v@[hi - 1]);
            assert(cur.drop_last() =~= v@.subrange(lo as int, hi as int - 1));
        }
        hi = hi - 1;
    }
    proof {
        let cur = v@.subrange(lo as int, hi as int);
        if hi > lo {
            assert(cur.last() == v@[hi - 1]);
        }
        assert(drop_trailing_slashes(cur) == cur);
        assert(v@.skip(lo as int) =~= v@.subrange(lo as int, v@.len() as int));
    }
    chars_range(v, lo, hi)
}

/// Executable form of `backslashed`.
fn backslashed_c(v: &Vec<char>) -> (r: Vec<char>)
    ensures
        r@ == backslashed(v@),
{
    let mut out: Vec<char> = Vec::new();
    let mut i: usize = 0;
    while i < v.len()
        invariant
            i <= v@.len(),
            out@ == backslashed(v@.take(i as int)),
        decreases v@.len() - i,
    {
        let c = v[i];
        if c == '/' {
            out.push('\\');
        } else {
            out.push(c);
        }
        proof {
            assert(out@ =~= backslashed(v@.take(i + 1)));
        }
        i = i + 1;
    }
    proof {
        assert(v@.take(i as int) =~= v@);
    }
    out
}

/// The whole download URL for `filename` under directory `dir` on
/// `volume`, as the server's two-level query shape wants it.
pub open spec fn download_url_of(dir: Seq<char>, filename: Seq<char>, vol: Seq<char>) -> Seq<char> {
    "https://vpn.inf.shizuoka.ac.jp/dana/download/"@ + encode_filename_seq(encode_utf8(filename))
        + "?url=/dana-cached/fb/smb/wfv.cgi?t=p&v="@ + vol + "&si=&ri=&pi=&ignoreDfs=1&dir="@
        + encode_path_seq(encode_utf8(backslashed(trim_slashes(dir)))) + "&file="@
        + encode_filename_seq(encode_utf8(filename))
}

/// Builds the download URL: the filename is percent-encoded with the
/// filename alphabet and appears twice; the directory, trimmed of outer
/// slashes and with `/` turned to `\`, is percent-encoded with the
/// stricter alphabet.
pub fn download_url(dir: &str, filename: &str, volume: &VolumeID) -> (r: String)
    ensures
        r@ == download_url_of(dir@, filename@, volume.spec_str()),
{
    let fenc = encode_filename(filename.as_bytes());
    let dir_c = to_chars(dir);
    let trimmed = trim_slashes_c(&dir_c);
    let slashed = backslashed_c(&trimmed);
    let dir_s = from_chars(&slashed);
    let denc = encode_path_component(dir_s.as_str().as_bytes());
    let vol = volume.format();
    let url = String::from_str("https://vpn.inf.shizuoka.ac.jp/dana/download/").concat(
        fenc.as_str(),
    ).concat("?url=/dana-cached/fb/smb/wfv.cgi?t=p&v=").concat(vol.as_str()).concat(
        "&si=&ri=&pi=&ignoreDfs=1&dir=",
    ).concat(denc.as_str()).concat("&file=").concat(fenc.as_str());
    url
}

/// Splits a request path into the directory and the filename: trailing
/// separators are dropped, the filename is everything after the last
/// remaining separator, and a path reduced to nothing has no filename.
pub fn split_file_path(path: &str) -> (r: Option<(String, String)>)
    ensures
        match r {
            Some(p) => {
                let t = drop_trailing_slashes(path@);
                &&& p.1@.len() > 0
                &&& !p.1@.contains('/')
                &&& ((p.0@.len() == 0 && t == p.1@) || t == p.0@ + seq!['/'] + p.1@)
            },
            None => drop_trailing_slashes(path@).len() == 0,
        },
{
    let cs = to_chars(path);
    let mut hi: usize = cs.len();
    proof {
        assert(cs@.take(hi as int) =~= cs@);
    }
    while hi > 0 && cs[hi - 1] == '/'
        invariant
            hi <= cs@.len(),
            drop_trailing_slashes(cs@) == drop_trailing_slashes(cs@.take(hi as int)),
        decreases hi,
    {
        proof {
            let cur = cs@.take(hi as int);
            assert(cur.last() == cs@[hi - 1]);
            assert(cur.drop_last() =~= cs@.take(hi as int - 1));
        }
        hi = hi - 1;
    }
    proof {
        let cur = cs@.take(hi as int);
        if hi > 0 {
            assert(cur.last() == cs@[hi - 1]);
        }
        assert(drop_trailing_slashes(cur) == cur);
    }
    if hi == 0 {
        return None;
    }
    let mut k: usize = hi;
    while k > 0 && cs[k - 1] != '/'
        invariant
            k <= hi <= cs@.len(),
            forall|j: int| k <= j < hi ==> cs@[j] != '/',
        decreases k,
    {
        k = k - 1;
    }
    assert(k < hi);
    let name_c = chars_range(&cs, k, hi);
    let name = from_chars(&name_c);
    proof {
        let t = cs@.take(hi as int);
        assert forall|j: int| 0 <= j < name_c@.len() implies name_c@[j] != '/' by {
            assert(name_c@[j] == cs@[k + j]);
        }
        assert(!name_c@.contains('/'));
    }
    if k == 0 {
        let dir = String::new();
        proof {
            assert(cs@.take(hi as int) =~= name_c@);
        }
        Some((dir, name))
    } else {
        let dir_c = chars_range(&cs, 0, k - 1);
        let dir = from_chars(&dir_c);
        proof {
            assert(cs@[k - 1] == '/');
            assert(cs@.take(hi as int) =~= dir_c@ + seq!['/'] + name_c@);
        }
        Some((dir, name))
    }
}

/// Why a download failed.
#[derive(Debug, Clone, Copy, PartialEq, Eq, Structural)]
pub enum DownloadError {
    /// The body is the fixed "does not exist" page.
    NotFound,
    /// The body is the fixed "no permission" page.
    PermissionDenied,
    /// The transport status was not the expected one; carries the
    /// expected and the received status.
    UnexpectedStatus(u16, u16),
}

/// The content-type fragment that marks an HTML body.
pub open spec fn html_marker() -> Seq<u8> {
    "html".spec_bytes()
}

/// The fixed phrase of the "does not exist" failure page.
pub open spec fn not_found_marker() -> Seq<u8> {
    "The file or folder does not exist on the server.".spec_bytes()
}

/// The fixed phrase of the "no permission" failure page.
pub open spec fn permission_marker() -> Seq<u8> {
    "You do not have permission to access this file server.".spec_bytes()
}

/// Classifies a completed download response.  Only status 200 can carry
/// the file; a 200 HTML body is inspected for the two fixed failure
/// phrases, the missing-file phrase first; everything else — including
/// an HTML body with neither phrase — is the file's bytes, returned
/// unchanged.
pub fn classify_download(status: u16, content_type: &str, body: Vec<u8>) -> (r: Result<
    Vec<u8>,
    DownloadError,
>)
    ensures
        status != 200 ==> r == Err::<Vec<u8>, DownloadError>(
            DownloadError::UnexpectedStatus(200u16, status),
        ),
        status == 200 && contains_sub(content_type.spec_bytes(), html_marker()) && contains_sub(
            body@,
            not_found_marker(),
        ) ==> r == Err::<Vec<u8>, DownloadError>(DownloadError::NotFound),
        status == 200 && contains_sub(content_type.spec_bytes(), html_marker()) && !contains_sub(
            body@,
            not_found_marker(),
        ) && contains_sub(body@, permission_marker()) ==> r == Err::<Vec<u8>, DownloadError>(
            DownloadError::PermissionDenied,
        ),
        status == 200 && (!contains_sub(content_type.spec_bytes(), html_marker()) || (!contains_sub(
            body@,
            not_found_marker(),
        ) && !contains_sub(body@, permission_marker()))) ==> (r matches Ok(b) && b@ == body@),
{
    if status != 200 {
        return Err(DownloadError::UnexpectedStatus(200, status));
    }
    let is_html = contains_bytes(content_type.as_bytes(), "html".as_bytes());
    if is_html {
        if contains_bytes(
            body.as_slice(),
            "The file or folder does not exist on the server.".as_bytes(),
        ) {
            Err(DownloadError::NotFound)
        } else if contains_bytes(
            body.as_slice(),
            "You do not have permission to access this file server.".as_bytes(),
        ) {
            Err(DownloadError::PermissionDenied)
        } else {
            Ok(body)
        }
    } else {
        Ok(body)
    }
}

} // verus!
