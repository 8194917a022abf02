//! Names of the files that the editor writes: the temporary file of an atomic save,
//! pasted and dropped images, and directory listings.
use base64::Engine;
use vstd::prelude::*;

use crate::text::{
    chars_of, decimal, find_from, find_from_exec, lemma_find_from, push_decimal, push_range,
    push_str, string_from_chars,
};

verus! {

/// The decimal numeral of an integer, with a minus sign when it is negative.
pub open spec fn signed_decimal(n: int) -> Seq<char> {
    if n < 0 {
        seq!['-'] + decimal((-n) as nat)
    } else {
        decimal(n as nat)
    }
}

/// The name of the temporary file that an atomic save of `file_name` writes first: hidden,
/// and unique to the process and the moment.
pub open spec fn temp_name(file_name: Option<Seq<char>>, pid: nat, nanos: nat) -> Seq<char> {
    let base = match file_name {
        Some(n) => n,
        None => "markpad"@,
    };
    "."@ + base + ".markpad-tmp-"@ + decimal(pid) + "-"@ + decimal(nanos)
}

/// The name of the temporary file beside `file_name` (or beside a file without a name)
/// written by process `pid` at `nanos` nanoseconds after the Unix epoch.
pub fn temp_file_name(file_name: Option<&str>, pid: u32, nanos: u128) -> (r: String)
    ensures
        r@ == temp_name(
            match file_name {
                Some(n) => Some(n@),
                None => None,
            },
            pid as nat,
            nanos as nat,
        ),
{
    let mut v: Vec<char> = Vec::new();
    push_str(&mut v, ".");
    match file_name {
        Some(n) => push_str(&mut v, n),
        None => push_str(&mut v, "markpad"),
    }
    push_str(&mut v, ".markpad-tmp-");
    push_decimal(&mut v, pid as u128);
    push_str(&mut v, "-");
    push_decimal(&mut v, nanos);
    proof {
        assert(v@ =~= temp_name(
            match file_name {
                Some(n) => Some(n@),
                None => None,
            },
            pid as nat,
            nanos as nat,
        ));
    }
    string_from_chars(v.as_slice())
}

/// The Base64 text of a pasted image: what follows the first `base64,` (the end of a
/// `data:` URL header), or all of it when there is none.
pub open spec fn image_payload(data: Seq<char>) -> Seq<char> {
    match find_from(data, "base64,"@, 0) {
        Some(j) => data.skip(j + 7),
        None => data,
    }
}

/// The Base64 text of a pasted image.
pub fn strip_data_url_prefix(data: &str) -> (r: String)
    ensures
        r@ == image_payload(data@),
{
    let s = chars_of(data);
    let marker = ['b', 'a', 's', 'e', '6', '4', ','];
    proof {
        reveal_strlit("base64,");
        assert(marker@ =~= "base64,"@);
    }
    match find_from_exec(&s, &marker, 0) {
        Some(j) => {
            proof {
                lemma_find_from(s@, marker@, 0);
            }
            let mut v: Vec<char> = Vec::new();
            push_range(&mut v, &s, j + 7, s.len());
            proof {
                assert(v@ =~= s@.skip(j + 7));
            }
            string_from_chars(v.as_slice())
        },
        None => string_from_chars(s.as_slice()),
    }
}

/// What the standard Base64 engine of the `base64` crate decodes a text to, or the message
/// of its error.
pub uninterp spec fn base64_decoded(text: Seq<char>) -> Result<Seq<u8>, Seq<char>>;

/// What the standard Base64 engine of the `base64` crate encodes bytes as.
pub uninterp spec fn base64_encoded(bytes: Seq<u8>) -> Seq<char>;

/// The texts that a decoding outcome holds.
pub open spec fn decode_view(r: Result<Vec<u8>, String>) -> Result<Seq<u8>, Seq<char>> {
    match r {
        Ok(b) => Ok(b@),
        Err(e) => Err(e@),
    }
}

/// Calls `base64::engine::general_purpose::STANDARD.decode`. Trusted: the outcome, and the
/// error message, depend on the text alone; the alphabet and padding rules are not stated.
#[verifier::external_body]
fn base64_decode(text: &str) -> (r: Result<Vec<u8>, String>)
    ensures
        decode_view(r) == base64_decoded(text@),
{
    match base64::engine::general_purpose::STANDARD.decode(text) {
        Ok(b) => Ok(b),
        Err(e) => Err(e.to_string()),
    }
}

/// Calls `base64::engine::general_purpose::STANDARD.encode`. Trusted: the text depends on
/// the bytes alone; the alphabet and padding rules are not stated.
#[verifier::external_body]
pub(crate) fn base64_encode(bytes: &[u8]) -> (r: String)
    ensures
        r@ == base64_encoded(bytes@),
{
    base64::engine::general_purpose::STANDARD.encode(bytes)
}

/// The bytes of a pasted image, sent as Base64 text or as a `data:` URL.
pub fn decode_image_data(data: &str) -> (r: Result<Vec<u8>, String>)
    ensures
        decode_view(r) == base64_decoded(image_payload(data@)),
{
    let payload = strip_data_url_prefix(data);
    base64_decode(payload.as_str())
}

/// The path of an image relative to the document: `file_name` inside `image_directory`, or
/// `file_name` alone when the directory is the document's own.
pub open spec fn image_path(image_directory: Seq<char>, file_name: Seq<char>) -> Seq<char> {
    if image_directory.len() == 0 {
        file_name
    } else {
        image_directory + "/"@ + file_name
    }
}

/// The path by which a document refers to an image it stores.
pub fn image_relative_path(image_directory: &str, file_name: &str) -> (r: String)
    ensures
        r@ == image_path(image_directory@, file_name@),
{
    let mut v: Vec<char> = Vec::new();
    if !image_directory.is_empty() {
        push_str(&mut v, image_directory);
        push_str(&mut v, "/");
    }
    push_str(&mut v, file_name);
    proof {
        assert(v@ =~= image_path(image_directory@, file_name@));
    }
    string_from_chars(v.as_slice())
}

/// The name under which a dropped image file is stored: its own name, or, when that name is
/// taken, its stem (`image` when it has none), `_`, the time in seconds, `.` and its
/// extension (empty when it has none).
pub open spec fn stored_image_name(
    file_name: Seq<char>,
    taken: bool,
    stem: Option<Seq<char>>,
    extension: Option<Seq<char>>,
    timestamp: int,
) -> Seq<char> {
    if taken {
        let st = match stem {
            Some(s) => s,
            None => "image"@,
        };
        let ext = match extension {
            Some(e) => e,
            None => Seq::empty(),
        };
        st + "_"@ + signed_decimal(timestamp) + "."@ + ext
    } else {
        file_name
    }
}

pub open spec fn opt_view(s: Option<&str>) -> Option<Seq<char>> {
    match s {
        Some(x) => Some(x@),
        None => None,
    }
}

/// Appends the numeral of a signed integer.
fn push_signed_decimal(out: &mut Vec<char>, n: i64)
    ensures
        final(out)@ == old(out)@ + signed_decimal(n as int),
{
    let ghost start = out@;
    if n < 0 {
        out.push('-');
        let magnitude: u128 = if n == i64::MIN {
            9223372036854775808u128
        } else {
            (-n) as u128
        };
        push_decimal(out, magnitude);
        proof {
            assert(out@ =~= start + signed_decimal(n as int));
        }
    } else {
        push_decimal(out, n as u128);
    }
}

/// The name under which a dropped image file is stored.
pub fn stored_image_file_name(
    file_name: &str,
    taken: bool,
    stem: Option<&str>,
    extension: Option<&str>,
    timestamp: i64,
) -> (r: String)
    ensures
        r@ == stored_image_name(
            file_name@,
            taken,
            opt_view(stem),
            opt_view(extension),
            timestamp as int,
        ),
{
    if !taken {
        let v = chars_of(file_name);
        return string_from_chars(v.as_slice());
    }
    let mut v: Vec<char> = Vec::new();
    match stem {
        Some(s) => push_str(&mut v, s),
        None => push_str(&mut v, "image"),
    }
    push_str(&mut v, "_");
    push_signed_decimal(&mut v, timestamp);
    push_str(&mut v, ".");
    match extension {
        Some(e) => push_str(&mut v, e),
        None => {},
    }
    proof {
        assert(v@ =~= stored_image_name(
            file_name@,
            taken,
            opt_view(stem),
            opt_view(extension),
            timestamp as int,
        ));
    }
    string_from_chars(v.as_slice())
}

/// How a directory listing shows an entry: directories end in `/`.
pub fn directory_entry_label(name: &str, is_dir: bool) -> (r: String)
    ensures
        r@ == (if is_dir {
            name@ + "/"@
        } else {
            name@
        }),
{
    let mut v: Vec<char> = Vec::new();
    push_str(&mut v, name);
    if is_dir {
        push_str(&mut v, "/");
    }
    string_from_chars(v.as_slice())
}

} // verus!
