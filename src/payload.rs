//! What a function log's payload holds once read as JSON.
use vstd::prelude::*;
use vstd::std_specs::iter::IteratorSpec;
use json::JsonValue;

verus! {

/// A payload read as JSON, one variant per kind of JSON document. Values that
/// the event carries as they are keep their compact JSON text.
#[derive(Clone, Debug, PartialEq, Eq)]
pub enum Payload {
    /// A JSON object: its members in document order, each value as JSON text.
    Object(Vec<(String, String)>),
    /// The JSON literal `null`.
    Null,
    /// A JSON string, as its quoted JSON text.
    Str(String),
    /// A JSON number, as JSON text.
    Number(String),
    /// A JSON boolean.
    Boolean(bool),
    /// A JSON array, as JSON text.
    Array(String),
    /// Text that is not a JSON document.
    Invalid,
}

pub enum PayloadView {
    Object(Seq<(Seq<char>, Seq<char>)>),
    Null,
    Str(Seq<char>),
    Number(Seq<char>),
    Boolean(bool),
    Array(Seq<char>),
    Invalid,
}

pub open spec fn member_view(p: (String, String)) -> (Seq<char>, Seq<char>) {
    (p.0@, p.1@)
}

pub open spec fn members_view(ms: Seq<(String, String)>) -> Seq<(Seq<char>, Seq<char>)> {
    ms.map_values(|p: (String, String)| member_view(p))
}

impl View for Payload {
    type V = PayloadView;

    open spec fn view(&self) -> PayloadView {
        match self {
            Payload::Object(ms) => PayloadView::Object(members_view(ms@)),
            Payload::Null => PayloadView::Null,
            Payload::Str(t) => PayloadView::Str(t@),
            Payload::Number(t) => PayloadView::Number(t@),
            Payload::Boolean(b) => PayloadView::Boolean(*b),
            Payload::Array(t) => PayloadView::Array(t@),
            Payload::Invalid => PayloadView::Invalid,
        }
    }
}

/// The most digits that may follow a `.` in a text handed to the JSON parser.
/// The parser lowers a 16-bit exponent once per fraction digit, unchecked, so
/// a longer run could overflow it.
pub const FRACTION_DIGITS_MAX: usize = 32767;

pub open spec fn is_digit(c: char) -> bool {
    '0' <= c && c <= '9'
}

/// How many digits follow the last `.` of `s` with nothing else between, or
/// -1 when `s` does not end in such a run.
pub open spec fn fraction_run(s: Seq<char>) -> int
    decreases s.len(),
{
    if s.len() == 0 {
        -1
    } else if s.last() == '.' {
        0
    } else if is_digit(s.last()) && fraction_run(s.drop_last()) >= 0 {
        fraction_run(s.drop_last()) + 1
    } else {
        -1
    }
}

/// Some `.` in `s` is followed by more than `FRACTION_DIGITS_MAX` digits.
pub open spec fn has_long_fraction(s: Seq<char>) -> bool
    decreases s.len(),
{
    if s.len() == 0 {
        false
    } else {
        has_long_fraction(s.drop_last()) || fraction_run(s) > FRACTION_DIGITS_MAX
    }
}

/// Whether `s` is short enough in every fraction to be handed to the JSON parser.
pub fn fractions_fit(s: &str) -> (r: bool)
    ensures
        r == !has_long_fraction(s@),
{
    broadcast use vstd::string::group_string_axioms;

    let mut chars = s.chars();
    let ghost mut seen: Seq<char> = Seq::empty();
    let mut run: i64 = -1;
    loop
        invariant
            chars.remaining() == s@.subrange(seen.len() as int, s@.len() as int),
            seen == s@.subrange(0, seen.len() as int),
            seen.len() <= s@.len(),
            run == fraction_run(seen),
            run <= FRACTION_DIGITS_MAX,
            !has_long_fraction(seen),
        decreases s@.len() - seen.len(),
    {
        let ghost before = seen;
        match chars.next() {
            None => {
                assert(seen =~= s@);
                return true;
            },
            Some(c) => {
                proof {
                    seen = seen.push(c);
                    assert(seen.drop_last() =~= before);
                    assert(seen =~= s@.subrange(0, seen.len() as int));
                }
                if c == '.' {
                    run = 0;
                } else if '0' <= c && c <= '9' && run >= 0 {
                    run = run + 1;
                } else {
                    run = -1;
                }
                if run > FRACTION_DIGITS_MAX as i64 {
                    assert(has_long_fraction(s@.subrange(0, seen.len() as int)));
                    proof {
                        lemma_long_fraction_extends(s@, seen.len() as int);
                    }
                    return false;
                }
            },
        }
    }
}

/// A long fraction in a prefix is a long fraction of the whole.
proof fn lemma_long_fraction_extends(s: Seq<char>, k: int)
    requires
        0 <= k <= s.len(),
        has_long_fraction(s.subrange(0, k)),
    ensures
        has_long_fraction(s),
    decreases s.len() - k,
{
    if k < s.len() {
        assert(s.subrange(0, k + 1).drop_last() =~= s.subrange(0, k));
        lemma_long_fraction_extends(s, k + 1);
    } else {
        assert(s.subrange(0, k) =~= s);
    }
}

/// What `json::parse` makes of a text, as a `PayloadView`.
pub uninterp spec fn parsed_payload(s: Seq<char>) -> PayloadView;

/// Relies on `json::parse`, whose result depends on the text alone, and on
/// `JsonValue::dump` to turn parsed values back into compact JSON text. The
/// parser's fraction loop lowers an `i16` exponent without a check, so texts
/// with a longer run of fraction digits are not handed to it.
#[verifier::external_body]
pub(crate) fn parse_payload(s: &str) -> (r: Payload)
    requires
        !has_long_fraction(s@),
    ensures
        r@ == parsed_payload(s@),
{
    match json::parse(s) {
        Ok(JsonValue::Object(o)) => {
            Payload::Object(o.iter().map(|(k, v)| (k.to_string(), v.dump())).collect())
        },
        Ok(JsonValue::Null) => Payload::Null,
        Ok(v @ JsonValue::Short(_)) => Payload::Str(v.dump()),
        Ok(v @ JsonValue::String(_)) => Payload::Str(v.dump()),
        Ok(v @ JsonValue::Number(_)) => Payload::Number(v.dump()),
        Ok(JsonValue::Boolean(b)) => Payload::Boolean(b),
        Ok(v @ JsonValue::Array(_)) => Payload::Array(v.dump()),
        Err(_) => Payload::Invalid,
    }
}

} // verus!
