//! Alert subscriptions ("demands") and their composite identity token.
//!
//! A demand's identity is its five fields joined with an underscore and
//! then base64-encoded into one opaque token, used as a callback
//! reference. Decoding inverts encoding exactly; a token that does not
//! decode to five underscore-separated fields with numeric first and
//! fourth parts is rejected. The separator is not escaped, so the kind,
//! token and interval fields must not contain an underscore — a
//! documented constraint of the format, not enforced at runtime by the
//! store.

use vstd::prelude::*;
use base64::Engine;
use vstd::string::StringExecFns;
use vstd::utf8::decode_utf8;
use vstd::utf8::encode_utf8;
use vstd::utf8::encode_utf8_decode_utf8;
use vstd::utf8::encode_utf8_valid_utf8;
use vstd::utf8::valid_utf8;
use crate::decimal::int_to_dec;
use crate::decimal::is_digit;
use crate::decimal::lemma_i16_dec_round_trip;
use crate::decimal::lemma_i64_dec_round_trip;
use crate::decimal::lemma_nat_to_dec_digits;
use crate::decimal::nat_to_dec;
use crate::decimal::parse_i16_str;
use crate::decimal::parse_i64_str;
use crate::decimal::push_i64_dec;
use crate::decimal::spec_parse_i16;
use crate::decimal::spec_parse_i64;
use crate::text::bytes_to_string;
use crate::text::join_chars;
use crate::text::lemma_split_join;
use crate::text::push_char;
use crate::text::split_chars;
use crate::text::split_on_char;

verus! {

/// Kind tag of a per-token alert subscription.
pub open spec fn spec_alert_kind() -> Seq<char> {
    "alert"@
}

/// Kind tag of a pump-broadcast subscription.
pub open spec fn spec_special_kind() -> Seq<char> {
    "pumpcheck"@
}

pub fn alert_kind() -> (r: &'static str)
    ensures
        r@ == spec_alert_kind(),
{
    "alert"
}

pub fn special_kind() -> (r: &'static str)
    ensures
        r@ == spec_special_kind(),
{
    "pumpcheck"
}

/// A standing request to be notified: per-chat, with a kind, a token
/// symbol (empty for the pump kind), a percent threshold (zero means
/// "any change"), and the interval it is evaluated on.
#[derive(Debug, Clone)]
pub struct Demand {
    pub chat_id: i64,
    pub thread_id: Option<i32>,
    pub type_of: String,
    pub token: String,
    pub percentage: i16,
    pub interval: String,
}

/// Name for what the base64 standard-alphabet encoder returns.
pub uninterp spec fn b64_of(bytes: Seq<u8>) -> Seq<char>;

/// Relies on base64's `STANDARD` engine `encode`: the result is a
/// function of the input bytes alone.
#[verifier::external_body]
fn b64_encode_str(s: &str) -> (r: String)
    ensures
        r@ == b64_of(encode_utf8(s@)),
{
    base64::engine::general_purpose::STANDARD.encode(s.as_bytes())
}

/// Relies on base64's `STANDARD` engine `decode`: the standard
/// configuration demands canonical padding, so decoding succeeds
/// exactly on canonical encodings, and then returns the encoded bytes.
#[verifier::external_body]
fn b64_decode_str(s: &str) -> (r: Option<Vec<u8>>)
    ensures
        match r {
            Some(v) => s@ == b64_of(v@) && (forall|b: Seq<u8>| s@ == b64_of(b) ==> v@ == b),
            None => forall|b: Seq<u8>| s@ != b64_of(b),
        },
{
    match base64::engine::general_purpose::STANDARD.decode(s.as_bytes()) {
        Ok(v) => Some(v),
        Err(_) => None,
    }
}

/// Joining five pieces, written out.
proof fn lemma_join5(
    a: Seq<char>,
    b: Seq<char>,
    c: Seq<char>,
    d: Seq<char>,
    e: Seq<char>,
    sep: char,
)
    ensures
        join_chars(seq![a, b, c, d, e], sep) == ((((a.push(sep) + b).push(sep) + c).push(sep)
            + d).push(sep) + e),
{
    let p5 = seq![a, b, c, d, e];
    let p4 = seq![a, b, c, d];
    let p3 = seq![a, b, c];
    let p2 = seq![a, b];
    let p1 = seq![a];
    assert(p5.drop_last() =~= p4);
    assert(p4.drop_last() =~= p3);
    assert(p3.drop_last() =~= p2);
    assert(p2.drop_last() =~= p1);
    assert(p5.last() == e);
    assert(p4.last() == d);
    assert(p3.last() == c);
    assert(p2.last() == b);
    assert(join_chars(p1, sep) == a);
    assert(join_chars(p2, sep) == a.push(sep) + b);
    assert(join_chars(p3, sep) == (a.push(sep) + b).push(sep) + c);
    assert(join_chars(p4, sep) == ((a.push(sep) + b).push(sep) + c).push(sep) + d);
}

/// Decimal text never holds an underscore.
proof fn lemma_int_dec_no_underscore(n: int)
    ensures
        !int_to_dec(n).contains('_'),
{
    let cs = int_to_dec(n);
    let mag = if n < 0 {
        (-n) as nat
    } else {
        n as nat
    };
    lemma_nat_to_dec_digits(mag);
    assert(!is_digit('_'));
    assert('_' != '-');
    if cs.contains('_') {
        let k = choose|k: int| 0 <= k < cs.len() && cs[k] == '_';
        if n < 0 {
            if k == 0 {
                assert(cs[0] == '-');
            } else {
                assert(cs[k] == nat_to_dec(mag)[k - 1]);
                assert(is_digit(nat_to_dec(mag)[k - 1]));
            }
        } else {
            assert(is_digit(cs[k]));
        }
    }
}

/// The listing line for one subscription: the token and threshold of
/// an alert, the fixed line of a pump subscription, and a fallback for
/// a kind the store should never hold.
pub open spec fn spec_demand_line(d: Demand) -> Seq<char> {
    if d.type_of@ == spec_alert_kind() {
        let end = if d.percentage == 0 {
            Seq::<char>::empty()
        } else {
            "for "@ + int_to_dec(d.percentage as int) + "%"@
        };
        "*"@ + d.token@ + "* price change "@ + end + " for "@ + d.interval@
    } else if d.type_of@ == spec_special_kind() {
        "*Special* demand"@
    } else {
        "Unexpected demand"@
    }
}

/// Formats one subscription for the chat's listing.
pub fn format_demand_for_message(demand: &Demand) -> (r: String)
    ensures
        r@ == spec_demand_line(*demand),
{
    if crate::text::str_eq(demand.type_of.as_str(), alert_kind()) {
        let mut out = String::new();
        out.append("*");
        out.append(demand.token.as_str());
        out.append("* price change ");
        if demand.percentage != 0 {
            out.append("for ");
            push_i64_dec(&mut out, demand.percentage as i64);
            out.append("%");
        }
        out.append(" for ");
        out.append(demand.interval.as_str());
        proof {
            assert(out@ =~= spec_demand_line(*demand));
        }
        out
    } else if crate::text::str_eq(demand.type_of.as_str(), special_kind()) {
        "*Special* demand".to_owned()
    } else {
        "Unexpected demand".to_owned()
    }
}

/// What decoded identity bytes denote: their text must split on the
/// separator into exactly five fields, with the first a chat id and
/// the fourth a threshold; anything else denotes nothing.
pub open spec fn spec_parse_composite(bytes: Seq<u8>) -> Option<
    (i64, Seq<char>, Seq<char>, i16, Seq<char>),
> {
    if !valid_utf8(bytes) {
        None
    } else {
        let parts = split_chars(decode_utf8(bytes), '_');
        if parts.len() != 5 {
            None
        } else {
            match (spec_parse_i64(parts[0]), spec_parse_i16(parts[3])) {
                (Some(chat), Some(pct)) => Some((chat, parts[1], parts[2], pct, parts[4])),
                _ => None,
            }
        }
    }
}

impl Demand {
    /// A demand for a chat with the given kind, an empty token and
    /// interval, and a zero threshold.
    pub fn new(chat_id: i64, type_of: String, thread_id: Option<i32>) -> (r: Demand)
        ensures
            r.chat_id == chat_id,
            r.thread_id == thread_id,
            r.type_of == type_of,
            r.token@ == Seq::<char>::empty(),
            r.percentage == 0,
            r.interval@ == Seq::<char>::empty(),
    {
        Demand {
            chat_id,
            thread_id,
            type_of,
            token: String::new(),
            percentage: 0,
            interval: String::new(),
        }
    }

    /// A field-for-field copy.
    pub fn duplicate(&self) -> (r: Demand)
        ensures
            r == *self,
    {
        Demand {
            chat_id: self.chat_id,
            thread_id: self.thread_id,
            type_of: self.type_of.clone(),
            token: self.token.clone(),
            percentage: self.percentage,
            interval: self.interval.clone(),
        }
    }

    /// The identity fields: everything but the thread.
    pub open spec fn identity(self) -> (i64, Seq<char>, Seq<char>, i16, Seq<char>) {
        (self.chat_id, self.type_of@, self.token@, self.percentage, self.interval@)
    }

    /// The textual fields hold no separator, so the composite text
    /// splits back into exactly the five fields.
    pub open spec fn fields_wf(self) -> bool {
        &&& !self.type_of@.contains('_')
        &&& !self.token@.contains('_')
        &&& !self.interval@.contains('_')
    }

    /// The five identity fields joined with the separator.
    pub open spec fn composite_chars(self) -> Seq<char> {
        join_chars(
            seq![
                int_to_dec(self.chat_id as int),
                self.type_of@,
                self.token@,
                int_to_dec(self.percentage as int),
                self.interval@,
            ],
            '_',
        )
    }

    /// The opaque identity token: the joined fields, base64-encoded.
    pub fn get_composite_id(&self) -> (r: String)
        requires
            self.fields_wf(),
        ensures
            r@ == b64_of(encode_utf8(self.composite_chars())),
    {
        let mut composite = String::new();
        push_i64_dec(&mut composite, self.chat_id);
        push_char(&mut composite, '_');
        composite.append(self.type_of.as_str());
        push_char(&mut composite, '_');
        composite.append(self.token.as_str());
        push_char(&mut composite, '_');
        push_i64_dec(&mut composite, self.percentage as i64);
        push_char(&mut composite, '_');
        composite.append(self.interval.as_str());
        proof {
            lemma_join5(
                int_to_dec(self.chat_id as int),
                self.type_of@,
                self.token@,
                int_to_dec(self.percentage as int),
                self.interval@,
                '_',
            );
            assert(Seq::<char>::empty() + int_to_dec(self.chat_id as int) =~= int_to_dec(
                self.chat_id as int,
            ));
            assert(composite@ =~= self.composite_chars());
        }
        b64_encode_str(composite.as_str())
    }

    /// Decodes an identity token back into its five fields. Decoding
    /// inverts `get_composite_id`; a token that is not a canonical
    /// encoding, or whose bytes are not text, or whose text does not
    /// split into exactly five fields with numeric first and fourth
    /// parts, is rejected.
    pub fn parse_composite_id(id: &str) -> (r: Option<(i64, String, String, i16, String)>)
        ensures
            forall|d: Demand|
                d.fields_wf() && id@ == b64_of(encode_utf8(#[trigger] d.composite_chars()))
                    ==> (r matches Some(t) && t.0 == d.chat_id && t.1@ == d.type_of@ && t.2@
                    == d.token@ && t.3 == d.percentage && t.4@ == d.interval@),
            match r {
                Some(t) => exists|b: Seq<u8>|
                    id@ == #[trigger] b64_of(b) && spec_parse_composite(b) == Some(
                        (t.0, t.1@, t.2@, t.3, t.4@),
                    ),
                None => forall|b: Seq<u8>|
                    id@ == #[trigger] b64_of(b) ==> spec_parse_composite(b) is None,
            },
    {
        let bytes = match b64_decode_str(id) {
            Some(v) => v,
            None => {
                proof {
                    assert forall|b: Seq<u8>|
                        id@ == #[trigger] b64_of(b) implies spec_parse_composite(b) is None by {}
                }
                return None;
            },
        };
        let ghost bytes_view = bytes@;
        let composite = match bytes_to_string(bytes) {
            Some(s) => s,
            None => {
                proof {
                    assert forall|d: Demand|
                        d.fields_wf() && id@ == b64_of(
                            encode_utf8(#[trigger] d.composite_chars()),
                        ) implies false by {
                        assert(bytes_view == encode_utf8(d.composite_chars()));
                        encode_utf8_valid_utf8(d.composite_chars());
                    }
                    assert forall|b: Seq<u8>|
                        id@ == #[trigger] b64_of(b) implies spec_parse_composite(b) is None by {
                        assert(b == bytes_view);
                    }
                }
                return None;
            },
        };
        let parts = split_on_char(composite.as_str(), '_');
        proof {
            assert forall|d: Demand|
                d.fields_wf() && id@ == b64_of(
                    encode_utf8(#[trigger] d.composite_chars()),
                ) implies parts@.map_values(|p: String| p@) == seq![
                int_to_dec(d.chat_id as int),
                d.type_of@,
                d.token@,
                int_to_dec(d.percentage as int),
                d.interval@,
            ] by {
                assert(bytes_view == encode_utf8(d.composite_chars()));
                encode_utf8_valid_utf8(d.composite_chars());
                encode_utf8_decode_utf8(d.composite_chars());
                assert(composite@ == d.composite_chars());
                lemma_int_dec_no_underscore(d.chat_id as int);
                lemma_int_dec_no_underscore(d.percentage as int);
                lemma_split_join(
                    seq![
                        int_to_dec(d.chat_id as int),
                        d.type_of@,
                        d.token@,
                        int_to_dec(d.percentage as int),
                        d.interval@,
                    ],
                    '_',
                );
            }
        }
        if parts.len() != 5 {
            proof {
                assert forall|b: Seq<u8>|
                    id@ == #[trigger] b64_of(b) implies spec_parse_composite(b) is None by {
                    assert(b == bytes_view);
                    assert(split_chars(decode_utf8(b), '_') == parts@.map_values(
                        |p: String| p@,
                    ));
                }
            }
            return None;
        }
        let chat_id = match parse_i64_str(parts[0].as_str()) {
            Some(v) => v,
            None => {
                proof {
                    assert forall|d: Demand|
                        d.fields_wf() && id@ == b64_of(
                            encode_utf8(#[trigger] d.composite_chars()),
                        ) implies false by {
                        assert(parts@.map_values(|p: String| p@)[0] == int_to_dec(
                            d.chat_id as int,
                        ));
                        lemma_i64_dec_round_trip(d.chat_id);
                    }
                    assert forall|b: Seq<u8>|
                        id@ == #[trigger] b64_of(b) implies spec_parse_composite(b) is None by {
                        assert(b == bytes_view);
                        assert(split_chars(decode_utf8(b), '_') == parts@.map_values(
                            |p: String| p@,
                        ));
                        assert(split_chars(decode_utf8(b), '_')[0] == parts@[0]@);
                    }
                }
                return None;
            },
        };
        let percentage = match parse_i16_str(parts[3].as_str()) {
            Some(v) => v,
            None => {
                proof {
                    assert forall|d: Demand|
                        d.fields_wf() && id@ == b64_of(
                            encode_utf8(#[trigger] d.composite_chars()),
                        ) implies false by {
                        assert(parts@.map_values(|p: String| p@)[3] == int_to_dec(
                            d.percentage as int,
                        ));
                        lemma_i16_dec_round_trip(d.percentage);
                    }
                    assert forall|b: Seq<u8>|
                        id@ == #[trigger] b64_of(b) implies spec_parse_composite(b) is None by {
                        assert(b == bytes_view);
                        assert(split_chars(decode_utf8(b), '_') == parts@.map_values(
                            |p: String| p@,
                        ));
                        assert(split_chars(decode_utf8(b), '_')[3] == parts@[3]@);
                    }
                }
                return None;
            },
        };
        let type_of = parts[1].clone();
        let token = parts[2].clone();
        let interval = parts[4].clone();
        proof {
            assert forall|d: Demand|
                d.fields_wf() && id@ == b64_of(
                    encode_utf8(#[trigger] d.composite_chars()),
                ) implies chat_id == d.chat_id && type_of@ == d.type_of@ && token@ == d.token@
                && percentage == d.percentage && interval@ == d.interval@ by {
                let m = parts@.map_values(|p: String| p@);
                assert(m[0] == int_to_dec(d.chat_id as int));
                assert(m[1] == d.type_of@);
                assert(m[2] == d.token@);
                assert(m[3] == int_to_dec(d.percentage as int));
                assert(m[4] == d.interval@);
                lemma_i64_dec_round_trip(d.chat_id);
                lemma_i16_dec_round_trip(d.percentage);
            }
            assert(id@ == b64_of(bytes_view));
            assert(spec_parse_composite(bytes_view) == Some(
                (chat_id, type_of@, token@, percentage, interval@),
            )) by {
                assert(split_chars(decode_utf8(bytes_view), '_') == parts@.map_values(
                    |p: String| p@,
                ));
                assert(split_chars(decode_utf8(bytes_view), '_')[0] == parts@[0]@);
                assert(split_chars(decode_utf8(bytes_view), '_')[3] == parts@[3]@);
                assert(split_chars(decode_utf8(bytes_view), '_')[1] == parts@[1]@);
                assert(split_chars(decode_utf8(bytes_view), '_')[2] == parts@[2]@);
                assert(split_chars(decode_utf8(bytes_view), '_')[4] == parts@[4]@);
            }
        }
        Some((chat_id, type_of, token, percentage, interval))
    }
}

} // verus!
