//! HTTP header values, as the bytes that stand in the request.
use vstd::prelude::*;
use vstd::string::*;

verus! {

/// `b` may stand in a header value: anything but control characters, except the tab.
pub open spec fn header_byte(b: u8) -> bool {
    (b >= 32 && b != 127) || b == 9
}

/// `b` is visible ASCII: a header byte below 128.
pub open spec fn visible_byte(b: u8) -> bool {
    (32 <= b && b < 127) || b == 9
}

/// The text of a header value made of `bytes`: there is one where all of them are visible
/// ASCII, and it has one character for each byte.
pub open spec fn header_text(bytes: Seq<u8>) -> Option<Seq<char>> {
    if forall|i: int| 0 <= i < bytes.len() ==> visible_byte(#[trigger] bytes[i]) {
        Some(bytes.map_values(|b: u8| b as char))
    } else {
        None
    }
}

/// `axum::http::HeaderValue::from_bytes`: whether it accepts `bytes`. It does where none of
/// them is a control character other than the tab.
#[verifier::external_body]
fn accepts_bytes(bytes: &Vec<u8>) -> (res: bool)
    ensures
        res == (forall|i: int| 0 <= i < bytes@.len() ==> header_byte(#[trigger] bytes@[i])),
{
    axum::http::HeaderValue::from_bytes(bytes).is_ok()
}

/// `axum::http::HeaderValue::to_str`, on the header value made of `bytes`: the text is there
/// where all bytes are visible ASCII, and has one character for each of them. Bytes that make
/// no header value are not visible ASCII either.
#[verifier::external_body]
fn text_of_bytes(bytes: &Vec<u8>) -> (res: Option<String>)
    ensures
        match res {
            Some(text) => header_text(bytes@) == Some(text@),
            None => header_text(bytes@) is None,
        },
{
    match axum::http::HeaderValue::from_bytes(bytes) {
        Ok(value) => match value.to_str() {
            Ok(text) => Some(text.to_owned()),
            Err(_) => None,
        },
        Err(_) => None,
    }
}

/// An HTTP header value.
#[derive(Debug)]
pub struct HeaderValue {
    bytes: Vec<u8>,
}

impl View for HeaderValue {
    type V = Seq<u8>;

    closed spec fn view(&self) -> Seq<u8> {
        self.bytes@
    }
}

impl HeaderValue {
    /// The bytes may stand in a header.
    pub open spec fn wf(self) -> bool {
        forall|i: int| 0 <= i < self@.len() ==> header_byte(#[trigger] self@[i])
    }

    /// The header value made of `bytes`, where they may stand in a header.
    pub fn from_bytes(bytes: Vec<u8>) -> (res: Option<HeaderValue>)
        ensures
            match res {
                Some(value) => value@ == bytes@ && value.wf(),
                None => exists|i: int| 0 <= i < bytes@.len() && !header_byte(#[trigger] bytes@[i]),
            },
            res is Some <==> forall|i: int|
                0 <= i < bytes@.len() ==> {
                    let b = #[trigger] bytes@[i];
                    (b >= 32 && b != 127) || b == 9
                },
    {
        if accepts_bytes(&bytes) {
            Some(HeaderValue { bytes })
        } else {
            None
        }
    }

    /// The bytes of the value.
    pub fn as_bytes(&self) -> (res: &Vec<u8>)
        ensures
            res@ == self@,
    {
        &self.bytes
    }

    /// The text of the value, where it is visible ASCII throughout.
    pub fn to_str(&self) -> (res: Option<String>)
        ensures
            match res {
                Some(text) => header_text(self@) == Some(text@) && reads_as(self@, text@),
                None => header_text(self@) is None && unreadable(self@),
            },
    {
        proof {
            law_header_text_is_whole(self@);
        }
        text_of_bytes(&self.bytes)
    }
}

impl Clone for HeaderValue {
    fn clone(&self) -> (res: Self)
        ensures
            res@ == self@,
    {
        HeaderValue { bytes: self.bytes.clone() }
    }
}

/// `text` has one character for each of `bytes`, with the same code, and each is visible ASCII.
pub open spec fn reads_as(bytes: Seq<u8>, text: Seq<char>) -> bool {
    &&& text.len() == bytes.len()
    &&& forall|i: int|
        0 <= i < bytes.len() ==> {
            let b = #[trigger] bytes[i];
            ((32 <= b && b < 127) || b == 9) && text[i] == b as char
        }
}

/// One of `bytes` is not visible ASCII.
pub open spec fn unreadable(bytes: Seq<u8>) -> bool {
    exists|i: int|
        0 <= i < bytes.len() && {
            let b = #[trigger] bytes[i];
            b != 9 && (b < 32 || b >= 127)
        }
}

/// A header value has a text exactly where all its bytes are visible ASCII, and that text is
/// all of them, in order.
pub proof fn law_header_text_is_whole(bytes: Seq<u8>)
    ensures
        match header_text(bytes) {
            Some(text) => reads_as(bytes, text),
            None => unreadable(bytes),
        },
        header_text(bytes) is Some <==> forall|i: int|
            0 <= i < bytes.len() ==> {
                let b = #[trigger] bytes[i];
                (32 <= b && b < 127) || b == 9
            },
        header_text(bytes) matches Some(text) ==> text.len() == bytes.len() && forall|i: int|
            0 <= i < bytes.len() ==> #[trigger] text[i] == bytes[i] as char,
        forall|text: Seq<char>| #[trigger] reads_as(bytes, text) ==> header_text(bytes) == Some(text),
        unreadable(bytes) ==> header_text(bytes) is None,
{
    match header_text(bytes) {
        Some(text) => {
            assert forall|i: int| 0 <= i < bytes.len() implies {
                let b = #[trigger] bytes[i];
                ((32 <= b && b < 127) || b == 9) && text[i] == b as char
            } by {
                assert(visible_byte(bytes[i]));
                assert(text[i] == bytes[i] as char);
            }
        },
        None => {
            let i = choose|i: int| 0 <= i < bytes.len() && !visible_byte(#[trigger] bytes[i]);
            assert(bytes[i] != 9);
        },
    }
    assert forall|text: Seq<char>| #[trigger] reads_as(bytes, text) implies header_text(bytes)
        == Some(text) by {
        assert forall|i: int| 0 <= i < bytes.len() implies visible_byte(#[trigger] bytes[i]) by {}
        let read = header_text(bytes)->0;
        assert forall|i: int| 0 <= i < bytes.len() implies read[i] == text[i] by {
            assert(read[i] == bytes[i] as char);
            assert(text[i] == bytes[i] as char);
        }
        assert(read =~= text);
    }
}

} // verus!
