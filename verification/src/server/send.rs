//! Handing a result to rqbit: the submitted magnet is percent-decoded, and
//! rqbit's reply is turned into the outcome of the grab.
use vstd::prelude::*;
use vstd::utf8::{decode_utf8, encode_utf8, valid_utf8};
use crate::server::models::SendToTransmission;
use crate::text::{chars_of, push_all, string_of};

verus! {

#[verifier::external_type_specification]
#[verifier::external_body]
pub struct ExFromUtf8Error(std::string::FromUtf8Error);

/// The value of the hexadecimal digit `b` (either case), if it is one.
pub open spec fn hex_value(b: u8) -> Option<u8> {
    if 0x30 <= b <= 0x39 {
        Some((b - 0x30) as u8)
    } else if 0x41 <= b <= 0x46 {
        Some((b - 0x41 + 10) as u8)
    } else if 0x61 <= b <= 0x66 {
        Some((b - 0x61 + 10) as u8)
    } else {
        None
    }
}

/// `bytes` with each `%` followed by two hexadecimal digits replaced by the
/// byte they denote; every other byte, `+` and a stray `%` included, kept.
pub open spec fn percent_decoded(bytes: Seq<u8>) -> Seq<u8>
    decreases bytes.len(),
{
    if bytes.len() == 0 {
        Seq::empty()
    } else if bytes[0] == 0x25 && bytes.len() >= 3 && hex_value(bytes[1]) is Some && hex_value(
        bytes[2],
    ) is Some {
        seq![(hex_value(bytes[1]).unwrap() * 16 + hex_value(bytes[2]).unwrap()) as u8]
            + percent_decoded(bytes.skip(3))
    } else {
        seq![bytes[0]] + percent_decoded(bytes.skip(1))
    }
}

/// `urlencoding::decode`: the UTF-8 bytes of `s` percent-decoded, as text;
/// an error when the decoded bytes are not UTF-8.
#[verifier::external_body]
fn url_decode(s: &str) -> (r: Result<String, std::string::FromUtf8Error>)
    ensures
        match r {
            Ok(d) => valid_utf8(percent_decoded(encode_utf8(s@))) && d@ == decode_utf8(
                percent_decoded(encode_utf8(s@)),
            ),
            Err(_) => !valid_utf8(percent_decoded(encode_utf8(s@))),
        },
{
    urlencoding::decode(s).map(|d| d.into_owned())
}

/// Why a grab was refused.
pub enum GrabError {
    /// The percent-decoded magnet is not UTF-8.
    NotUtf8,
}

/// The magnet to hand to rqbit: the submitted one, percent-decoded.
pub fn decoded_magnet(form: &SendToTransmission) -> (r: Result<String, GrabError>)
    ensures
        valid_utf8(percent_decoded(encode_utf8(form.magnet@))) <==> r is Ok,
        r matches Ok(m) ==> m@ == decode_utf8(percent_decoded(encode_utf8(form.magnet@))),
{
    match url_decode(form.magnet.as_str()) {
        Ok(m) => Ok(m),
        Err(_) => Err(GrabError::NotUtf8),
    }
}

/// `rqbit returned `
pub open spec fn rqbit_returned() -> Seq<char> {
    seq!['r', 'q', 'b', 'i', 't', ' ', 'r', 'e', 't', 'u', 'r', 'n', 'e', 'd', ' ']
}

/// The outcome of adding a torrent: rqbit's reply text when its status was
/// a success, else `rqbit returned STATUS: TEXT`.
pub fn rqbit_outcome(success: bool, status: &str, text: String) -> (r: Result<String, String>)
    ensures
        success ==> r == Ok::<String, String>(text),
        !success ==> (r matches Err(e) && e@ == rqbit_returned() + status@ + seq![':', ' '] + text@),
{
    if success {
        Ok(text)
    } else {
        let mut out: Vec<char> = vec!['r', 'q', 'b', 'i', 't', ' ', 'r', 'e', 't', 'u', 'r', 'n', 'e', 'd', ' '];
        assert(out@ == rqbit_returned());
        push_all(&mut out, chars_of(status).as_slice());
        out.push(':');
        out.push(' ');
        push_all(&mut out, chars_of(text.as_str()).as_slice());
        assert(out@ =~= rqbit_returned() + status@ + seq![':', ' '] + text@);
        Err(string_of(out.as_slice()))
    }
}

} // verus!
