//! Where the converter writes a packed file: next to its input, with the
//! extension "gsz", and mirrored under "splats/v2/" when the input lies in
//! "splats/".

use vstd::prelude::*;
use vstd::utf8::{
    decode_utf8, encode_utf8, encode_utf8_decode_utf8, encode_utf8_valid_utf8,
    is_char_boundary, is_char_boundary_iff_not_is_continuation_byte, length_of_first_scalar,
    pop_first_scalar, valid_utf8,
};
use crate::loader::occurs_at;

verus! {

/// "splats/"
pub const SPLATS_DIR: [u8; 7] = [115, 112, 108, 97, 116, 115, 47];

/// What `Path::with_extension(path, ext)` gives, as a string, under the
/// path rules of the build target.
pub uninterp spec fn path_with_extension(path: Seq<char>, ext: Seq<char>) -> Seq<char>;

/// `std::path::Path::with_extension`, turned back into a string: the path
/// with the extension of its last component replaced by `ext` (or added).
/// Its result is named, not described. The call panics on an extension
/// that holds a path separator, which `requires` leaves out.
#[verifier::external_body]
fn with_extension(path: &str, ext: &str) -> (r: String)
    requires
        !ext@.contains('/'),
        !ext@.contains('\\'),
    ensures
        r@ == path_with_extension(path@, ext@),
{
    std::path::Path::new(path).with_extension(ext).to_string_lossy().into_owned()
}

/// First position at or after `k` where `pat` occurs in `b`, or -1.
pub open spec fn first_occurrence_from(b: Seq<u8>, pat: Seq<u8>, k: int) -> int
    decreases b.len() + 1 - k,
{
    if k < 0 || k + pat.len() > b.len() || k > b.len() {
        -1
    } else if occurs_at(b, pat, k) {
        k
    } else {
        first_occurrence_from(b, pat, k + 1)
    }
}

/// `s` with "v2/" inserted after its first "splats/"; `s` itself when it
/// holds none.
pub open spec fn spec_insert_version_dir(s: Seq<char>) -> Seq<char> {
    let b = encode_utf8(s);
    let k = first_occurrence_from(b, SPLATS_DIR@, 0);
    if k < 0 {
        s
    } else {
        decode_utf8(b.subrange(0, k + 7)) + "v2/"@ + decode_utf8(b.subrange(k + 7, b.len() as int))
    }
}

/// The output path for `input`.
pub open spec fn spec_output_path(input: Seq<char>) -> Seq<char> {
    spec_insert_version_dir(path_with_extension(input, "gsz"@))
}

proof fn lemma_boundary_after_ascii(b: Seq<u8>, i: int)
    requires
        valid_utf8(b),
        0 <= i < b.len(),
        b[i] < 0x80,
        is_char_boundary(b, i),
    ensures
        is_char_boundary(b, i + 1),
    decreases b.len(),
{
    let l = length_of_first_scalar(b);
    let p = pop_first_scalar(b);
    if i == 0 {
        assert(l == 1);
        assert(is_char_boundary(p, 0));
    } else {
        assert(is_char_boundary(p, i - l));
        assert(i >= l);
        assert(p[i - l] == b[i]);
        lemma_boundary_after_ascii(p, i - l);
    }
}

proof fn lemma_first_occurrence_found(b: Seq<u8>, pat: Seq<u8>, k: int)
    requires
        first_occurrence_from(b, pat, k) >= 0,
    ensures
        occurs_at(b, pat, first_occurrence_from(b, pat, k)),
    decreases b.len() + 1 - k,
{
    if !(k < 0 || k + pat.len() > b.len() || k > b.len()) && !occurs_at(b, pat, k) {
        lemma_first_occurrence_found(b, pat, k + 1);
    }
}

fn first_match(b: &[u8], pat: &[u8]) -> (r: Option<usize>)
    requires
        pat@.len() > 0,
    ensures
        match r {
            Some(k) => first_occurrence_from(b@, pat@, 0) == k,
            None => first_occurrence_from(b@, pat@, 0) == -1,
        },
{
    if pat.len() > b.len() {
        return None;
    }
    let mut k: usize = 0;
    while k <= b.len() - pat.len()
        invariant
            pat@.len() <= b@.len(),
            pat@.len() > 0,
            b@.len() == b.len(),
            k <= b@.len() - pat@.len() + 1,
            first_occurrence_from(b@, pat@, 0) == first_occurrence_from(b@, pat@, k as int),
        decreases b@.len() + 1 - k,
    {
        if crate::loader::matches_at(b, k, pat) {
            return Some(k);
        }
        k = k + 1;
    }
    None
}

/// Inserts "v2/" after the first "splats/" of `s`.
pub fn insert_version_dir(s: String) -> (r: String)
    ensures
        r@ == spec_insert_version_dir(s@),
{
    let bytes = s.as_str().as_bytes();
    let found = first_match(bytes, SPLATS_DIR.as_slice());
    let ghost blen = bytes@.len();
    assert(blen == bytes.len());
    match found {
        None => s,
        Some(k) => {
            let ghost b = encode_utf8(s@);
            proof {
                lemma_first_occurrence_found(b, SPLATS_DIR@, 0);
            }
            let mid = k + 7;
            proof {
                encode_utf8_valid_utf8(s@);
                assert(b.subrange(k as int, k + 7) == SPLATS_DIR@);
                assert(b[k + 6] == b.subrange(k as int, k + 7)[6]);
                is_char_boundary_iff_not_is_continuation_byte(b, k + 6);
                lemma_boundary_after_ascii(b, k + 6);
            }
            let (pre, rest) = s.as_str().split_at(mid);
            proof {
                encode_utf8_decode_utf8(pre@);
                encode_utf8_decode_utf8(rest@);
                reveal_strlit("v2/");
            }
            let mut out = String::from_str(pre);
            out.append("v2/");
            out.append(rest);
            out
        },
    }
}

/// The packed file written for `input`: `input` with the extension "gsz",
/// mirrored under "splats/v2/" when it lies in "splats/".
pub fn output_path(input: &str) -> (r: String)
    ensures
        r@ == spec_output_path(input@),
{
    proof {
        reveal_strlit("gsz");
    }
    let file_name = with_extension(input, "gsz");
    insert_version_dir(file_name)
}

} // verus!
