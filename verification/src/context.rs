//! The wire format of outbound frames.
//!
//! A frame is the JSON array `[code,payload]`: the number of its [`Code`],
//! then a payload whose shape goes with the code. The arrays and objects are
//! laid out here; the JSON form of a string comes from `serde_json`.

use crate::text::{
    chars_of, decimal, decimal_i32, find_char, first_of, is_digit, lemma_decimal_is_numeral,
    lemma_prefix_len, lemma_prefix_len_run, lemma_signed_decimal_injective, other_than_char,
    parse_i32, signed_decimal,
};
use vstd::prelude::*;
use vstd::string::*;

verus! {

/// The kind of an outbound frame.
#[derive(Clone, Copy, Debug, PartialEq, Eq, Structural)]
pub enum Code {
    /// A chat message: the payload is a [`MsgData`].
    Msg,
    /// A system notice: the payload is a string.
    Sys,
    /// A progress update: the payload is the pair of progress and speed.
    Progress,
    /// An ownership notice: the payload is a boolean.
    Roomer,
    /// A shared value: the payload is a string.
    Share,
    /// A snapshot of a room: the payload is an object.
    Members,
    /// A playback speed: the payload is a string.
    Speed,
}

impl Code {
    /// The number that stands for this kind on the wire.
    pub open spec fn number(self) -> int {
        match self {
            Code::Msg => 0,
            Code::Sys => 1,
            Code::Progress => 2,
            Code::Roomer => 3,
            Code::Share => 4,
            Code::Members => 5,
            Code::Speed => 6,
        }
    }

    /// The number that stands for this kind on the wire.
    pub fn code(self) -> (n: i32)
        ensures
            n == self.number(),
    {
        match self {
            Code::Msg => 0,
            Code::Sys => 1,
            Code::Progress => 2,
            Code::Roomer => 3,
            Code::Share => 4,
            Code::Members => 5,
            Code::Speed => 6,
        }
    }

    /// The kind that the number `n` stands for, if it stands for one.
    pub fn of_number(n: i32) -> (r: Option<Code>)
        ensures
            match r {
                Some(code) => code.number() == n,
                None => forall|code: Code| code.number() != n,
            },
    {
        if n == 0 {
            Some(Code::Msg)
        } else if n == 1 {
            Some(Code::Sys)
        } else if n == 2 {
            Some(Code::Progress)
        } else if n == 3 {
            Some(Code::Roomer)
        } else if n == 4 {
            Some(Code::Share)
        } else if n == 5 {
            Some(Code::Members)
        } else if n == 6 {
            Some(Code::Speed)
        } else {
            None
        }
    }
}

/// The JSON string literal that `serde_json` writes for `text`: the text
/// between double quotes, with the escapes of that crate.
pub uninterp spec fn json_text(text: Seq<char>) -> Seq<char>;

/// `serde_json::to_string` on a `str`. The contract names what it returns,
/// which depends on the text alone. The call fails only where a `Serialize`
/// impl fails or a map has a key that is no string; a `str` is neither, and
/// the writer is a `Vec<u8>`.
#[verifier::external_body]
fn json_string(text: &str) -> (r: String)
    ensures
        r@ == json_text(text@),
{
    serde_json::to_string(text).unwrap()
}

/// The frame with the number `code` and the encoded payload `payload`.
pub open spec fn frame(code: int, payload: Seq<char>) -> Seq<char> {
    seq!['['] + signed_decimal(code) + seq![','] + payload + seq![']']
}

/// Where the parts of a frame stand in it.
pub proof fn lemma_frame_parts(code: int, payload: Seq<char>)
    ensures
        ({
            let f = frame(code, payload);
            let n = signed_decimal(code).len() as int;
            &&& n >= 1
            &&& f.len() == n + payload.len() + 3
            &&& f[0] == '['
            &&& f[f.len() - 1] == ']'
            &&& f.subrange(1, 1 + n) == signed_decimal(code)
            &&& f[1 + n] == ','
            &&& f.subrange(2 + n, f.len() - 1) == payload
            &&& first_of(f.subrange(1, f.len() - 1), ',') == n
        }),
{
    let f = frame(code, payload);
    let number = signed_decimal(code);
    let n = number.len() as int;
    lemma_decimal_is_numeral(
        if code < 0 {
            (-code) as nat
        } else {
            code as nat
        },
    );
    assert(f.subrange(1, 1 + n) =~= number);
    assert(f.subrange(2 + n, f.len() - 1) =~= payload);
    let inner = f.subrange(1, f.len() - 1);
    assert forall|i: int| 0 <= i < n implies other_than_char(',')(#[trigger] inner[i]) by {
        assert(inner[i] == number[i]);
        if code < 0 && i > 0 {
            assert(number[i] == decimal((-code) as nat)[i - 1]);
            assert(is_digit(number[i]));
        } else if code >= 0 {
            assert(is_digit(number[i]));
        }
    }
    assert(inner[n] == ',');
    lemma_prefix_len(inner, other_than_char(','), n);
}

/// A frame is the frame of one code and one payload.
pub proof fn lemma_frame_injective(a: int, x: Seq<char>, b: int, y: Seq<char>)
    requires
        frame(a, x) == frame(b, y),
    ensures
        a == b,
        x == y,
{
    lemma_frame_parts(a, x);
    lemma_frame_parts(b, y);
    lemma_signed_decimal_injective(a, b);
}

/// Parts an encoded frame into the number of its code and its payload, which
/// stays encoded. Text that is no frame gives nothing.
pub fn split_frame(text: &str) -> (r: Option<(i32, String)>)
    ensures
        match r {
            Some((code, payload)) => text@ == frame(code as int, payload@),
            None => forall|code: i32, payload: Seq<char>|
                text@ != #[trigger] frame(code as int, payload),
        },
{
    let chars = chars_of(text);
    let n = chars.len();
    assert forall|code: i32, payload: Seq<char>| text@ == #[trigger] frame(code as int, payload) implies {
        let m = signed_decimal(code as int).len() as int;
        &&& m >= 1
        &&& n == m + payload.len() + 3
        &&& chars@[0] == '['
        &&& chars@[n - 1] == ']'
        &&& chars@.subrange(1, 1 + m) == signed_decimal(code as int)
        &&& first_of(chars@.subrange(1, n - 1), ',') == m
    } by {
        lemma_frame_parts(code as int, payload);
    }
    if n < 4 || chars[0] != '[' || chars[n - 1] != ']' {
        return None;
    }
    let k = find_char(&chars, 1, n - 1, ',');
    if k == n - 1 {
        return None;
    }
    match parse_i32(&chars, 1, k) {
        Some(code) => {
            let payload = text.substring_char(k + 1, n - 1);
            proof {
                lemma_prefix_len_run(chars@.subrange(1, n - 1), other_than_char(','));
                assert(chars@.subrange(1, n - 1)[k - 1] == chars@[k as int]);
                assert(text@ =~= frame(code as int, payload@));
            }
            Some((code, payload.to_owned()))
        },
        None => None,
    }
}

/// Parts an encoded frame into its kind and its payload, which stays
/// encoded. Text that is no frame of a known kind gives nothing.
pub fn open_frame(text: &str) -> (r: Option<(Code, String)>)
    ensures
        match r {
            Some((code, payload)) => text@ == frame(code.number(), payload@),
            None => forall|code: Code, payload: Seq<char>|
                text@ != #[trigger] frame(code.number(), payload),
        },
{
    match split_frame(text) {
        Some((number, payload)) => match Code::of_number(number) {
            Some(code) => Some((code, payload)),
            None => {
                proof {
                    assert forall|code: Code, other: Seq<char>|
                        text@ != #[trigger] frame(code.number(), other) by {
                        if text@ == frame(code.number(), other) {
                            lemma_frame_injective(number as int, payload@, code.number(), other);
                        }
                    }
                }
                None
            },
        },
        None => {
            proof {
                assert forall|code: Code, other: Seq<char>|
                    text@ != #[trigger] frame(code.number(), other) by {
                    assert(code.number() == (code.number() as i32) as int);
                    assert(text@ != frame((code.number() as i32) as int, other));
                }
            }
            None
        },
    }
}

/// The JSON array of two strings.
pub open spec fn json_pair(first: Seq<char>, second: Seq<char>) -> Seq<char> {
    seq!['['] + json_text(first) + seq![','] + json_text(second) + seq![']']
}

/// The JSON form of a boolean.
pub open spec fn json_bool(b: bool) -> Seq<char> {
    if b {
        seq!['t', 'r', 'u', 'e']
    } else {
        seq!['f', 'a', 'l', 's', 'e']
    }
}

/// The JSON form of an absent value.
pub open spec fn json_null() -> Seq<char> {
    seq!['n', 'u', 'l', 'l']
}

/// A value that can be the payload of a frame.
pub trait Encode {
    /// The JSON text of the value.
    spec fn json(&self) -> Seq<char>;

    fn encode(&self) -> (r: String)
        ensures
            r@ == self.json(),
    ;
}

impl Encode for String {
    open spec fn json(&self) -> Seq<char> {
        json_text(self@)
    }

    fn encode(&self) -> (r: String) {
        json_string(self.as_str())
    }
}

impl Encode for bool {
    open spec fn json(&self) -> Seq<char> {
        json_bool(*self)
    }

    fn encode(&self) -> (r: String) {
        proof {
            reveal_strlit("true");
            reveal_strlit("false");
        }
        let r = if *self {
            String::from_str("true")
        } else {
            String::from_str("false")
        };
        assert(r@ =~= json_bool(*self));
        r
    }
}

fn encode_pair(first: &String, second: &String) -> (r: String)
    ensures
        r@ == json_pair(first@, second@),
{
    let mut r = String::from_str("[");
    let a = json_string(first.as_str());
    r.append(a.as_str());
    r.append(",");
    let b = json_string(second.as_str());
    r.append(b.as_str());
    r.append("]");
    proof {
        reveal_strlit("[");
        reveal_strlit(",");
        reveal_strlit("]");
        assert(r@ =~= json_pair(first@, second@));
    }
    r
}

impl Encode for (String, String) {
    open spec fn json(&self) -> Seq<char> {
        json_pair(self.0@, self.1@)
    }

    fn encode(&self) -> (r: String) {
        encode_pair(&self.0, &self.1)
    }
}

/// The payload of a chat frame: who spoke, and the text.
#[derive(Debug, Clone, PartialEq, Eq)]
pub struct MsgData(pub String, pub String);

impl Encode for MsgData {
    open spec fn json(&self) -> Seq<char> {
        json_pair(self.0@, self.1@)
    }

    fn encode(&self) -> (r: String) {
        encode_pair(&self.0, &self.1)
    }
}

impl<T: Encode> Encode for Option<T> {
    open spec fn json(&self) -> Seq<char> {
        match self {
            Some(value) => value.json(),
            None => json_null(),
        }
    }

    fn encode(&self) -> (r: String) {
        match self {
            Some(value) => value.encode(),
            None => {
                proof {
                    reveal_strlit("null");
                }
                let r = String::from_str("null");
                assert(r@ =~= json_null());
                r
            },
        }
    }
}

/// A frame before it is encoded: the number of its code, and its payload.
#[derive(Debug, Clone)]
pub struct Data<T: Encode>(pub i32, pub T);

impl<T: Encode> Encode for Data<T> {
    open spec fn json(&self) -> Seq<char> {
        frame(self.0 as int, self.1.json())
    }

    fn encode(&self) -> (r: String) {
        let mut r = String::from_str("[");
        let code = decimal_i32(self.0);
        r.append(code.as_str());
        r.append(",");
        let payload = self.1.encode();
        r.append(payload.as_str());
        r.append("]");
        proof {
            reveal_strlit("[");
            reveal_strlit(",");
            reveal_strlit("]");
            assert(r@ =~= frame(self.0 as int, self.1.json()));
        }
        r
    }
}

impl<T: Encode> Data<T> {
    /// The encoded frame of kind `code` that carries `msg`.
    pub fn full(code: Code, msg: T) -> (r: String)
        ensures
            r@ == frame(code.number(), msg.json()),
    {
        let data = Data(code.code(), msg);
        data.encode()
    }

    /// The encoded system notice that carries `msg`.
    pub fn sys(msg: T) -> (r: String)
        ensures
            r@ == frame(Code::Sys.number(), msg.json()),
    {
        let data = Data(Code::Sys.code(), msg);
        data.encode()
    }

    /// The encoded progress update that carries `msg`.
    pub fn progress(msg: T) -> (r: String)
        ensures
            r@ == frame(Code::Progress.number(), msg.json()),
    {
        let data = Data(Code::Progress.code(), msg);
        data.encode()
    }
}

impl Data<MsgData> {
    /// The encoded chat frame in which `user` says `msg`.
    pub fn msg(user: String, msg: String) -> (r: String)
        ensures
            r@ == frame(Code::Msg.number(), json_pair(user@, msg@)),
    {
        let data = Data(Code::Msg.code(), MsgData(user, msg));
        data.encode()
    }
}

/// A sink for the frames that go to one connection.
pub trait Msg<T: Encode> {
    /// The frames written so far, oldest first.
    spec fn written(&self) -> Seq<Seq<char>>;

    /// Writes the frame of kind `code` that carries `msg`.
    fn full(&mut self, code: Code, msg: T)
        ensures
            final(self).written() == old(self).written().push(frame(code.number(), msg.json())),
    ;

    /// Writes the system notice that carries `msg`.
    fn sys(&mut self, msg: T)
        ensures
            final(self).written() == old(self).written().push(
                frame(Code::Sys.number(), msg.json()),
            ),
    ;

    /// Writes the progress update that carries `msg`.
    fn progress(&mut self, msg: T)
        ensures
            final(self).written() == old(self).written().push(
                frame(Code::Progress.number(), msg.json()),
            ),
    ;

    /// Writes the chat frame in which `user` says `msg`.
    fn msg(&mut self, user: String, msg: String)
        ensures
            final(self).written() == old(self).written().push(
                frame(Code::Msg.number(), json_pair(user@, msg@)),
            ),
    ;
}

/// The frames that a handler has written for its connection and that the
/// transport has not yet taken.
#[derive(Debug)]
pub struct Outbox {
    frames: Vec<String>,
}

impl View for Outbox {
    type V = Seq<Seq<char>>;

    closed spec fn view(&self) -> Seq<Seq<char>> {
        self.frames@.map_values(|f: String| f@)
    }
}

impl Outbox {
    /// An outbox with nothing in it.
    pub fn new() -> (r: Outbox)
        ensures
            r@ == Seq::<Seq<char>>::empty(),
    {
        let r = Outbox { frames: Vec::new() };
        assert(r@ =~= Seq::<Seq<char>>::empty());
        r
    }

    /// Appends an encoded frame.
    pub fn push(&mut self, encoded: String)
        ensures
            final(self)@ == old(self)@.push(encoded@),
    {
        self.frames.push(encoded);
        assert(self@ =~= old(self)@.push(encoded@));
    }

    /// Hands the frames out, oldest first, and leaves the outbox empty.
    pub fn take(&mut self) -> (r: Vec<String>)
        ensures
            r@.map_values(|f: String| f@) == old(self)@,
            final(self)@ == Seq::<Seq<char>>::empty(),
    {
        let mut r: Vec<String> = Vec::new();
        std::mem::swap(&mut r, &mut self.frames);
        assert(self@ =~= Seq::<Seq<char>>::empty());
        r
    }
}

impl<T: Encode> Msg<T> for Outbox {
    open spec fn written(&self) -> Seq<Seq<char>> {
        self@
    }

    fn full(&mut self, code: Code, msg: T) {
        let encoded = Data::full(code, msg);
        self.push(encoded);
    }

    fn sys(&mut self, msg: T) {
        let encoded = Data::sys(msg);
        self.push(encoded);
    }

    fn progress(&mut self, msg: T) {
        let encoded = Data::progress(msg);
        self.push(encoded);
    }

    fn msg(&mut self, user: String, msg: String) {
        let encoded = Data::msg(user, msg);
        self.push(encoded);
    }
}

} // verus!
