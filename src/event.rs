//! The canonical event: an ordered JSON object whose first two members are the
//! reserved keys `t` and `type`, and its one-line JSON serialisation.
use vstd::prelude::*;
use crate::text::{int_text, json_quoted, push_int, push_nat, quote};

verus! {

/// A member value of a canonical event.
#[derive(Clone, Debug, PartialEq, Eq)]
pub enum Value {
    /// A signed integer, written in decimal.
    Int(i64),
    /// An unsigned integer, written in decimal.
    UInt(u64),
    /// A string, written as a quoted JSON literal.
    Str(String),
    /// Text that already is JSON (a value taken from a parsed payload, a number), written verbatim.
    Raw(String),
}

/// The mathematical reading of a `Value`.
pub enum ValueView {
    Num(int),
    Str(Seq<char>),
    Raw(Seq<char>),
}

impl View for Value {
    type V = ValueView;

    open spec fn view(&self) -> ValueView {
        match self {
            Value::Int(n) => ValueView::Num(*n as int),
            Value::UInt(n) => ValueView::Num(*n as int),
            Value::Str(s) => ValueView::Str(s@),
            Value::Raw(s) => ValueView::Raw(s@),
        }
    }
}

/// An ordered list of members, keyed by strings.
pub type Fields = Seq<(Seq<char>, ValueView)>;

/// A canonical event, as handed from the record handler to the forwarder.
#[derive(Clone, Debug, PartialEq, Eq)]
pub struct CanonicalEvent {
    pub fields: Vec<(String, Value)>,
}

pub open spec fn field_view(p: (String, Value)) -> (Seq<char>, ValueView) {
    (p.0@, p.1@)
}

impl View for CanonicalEvent {
    type V = Fields;

    open spec fn view(&self) -> Fields {
        self.fields@.map_values(|p: (String, Value)| field_view(p))
    }
}

pub open spec fn key_t() -> Seq<char> {
    seq!['t']
}

pub open spec fn key_type() -> Seq<char> {
    seq!['t', 'y', 'p', 'e']
}

/// Keys that only the canonicaliser sets; payload members never replace them.
pub open spec fn is_reserved(k: Seq<char>) -> bool {
    k == key_t() || k == key_type()
}

/// Sets member `k` to `v`: the first member with that key gets the new value in
/// its place, and a key not yet present is appended at the end.
pub open spec fn put(fs: Fields, k: Seq<char>, v: ValueView) -> Fields
    decreases fs.len(),
{
    if fs.len() == 0 {
        seq![(k, v)]
    } else if fs[0].0 == k {
        fs.update(0, (k, v))
    } else {
        seq![fs[0]] + put(fs.subrange(1, fs.len() as int), k, v)
    }
}

/// Merges one payload member: a reserved key is skipped, any other is set.
pub open spec fn merge_member(fs: Fields, k: Seq<char>, v: ValueView) -> Fields {
    if is_reserved(k) {
        fs
    } else {
        put(fs, k, v)
    }
}

/// Merges payload members, in order, each value being JSON text.
pub open spec fn merge_all(fs: Fields, ms: Seq<(Seq<char>, Seq<char>)>) -> Fields
    decreases ms.len(),
{
    if ms.len() == 0 {
        fs
    } else {
        merge_member(merge_all(fs, ms.drop_last()), ms.last().0, ValueView::Raw(ms.last().1))
    }
}

/// No two members share a key.
pub open spec fn keys_distinct(fs: Fields) -> bool {
    forall|i: int, j: int| 0 <= i < j < fs.len() ==> fs[i].0 != fs[j].0
}

/// The shape every canonical event has: `t` first, `type` second, keys distinct.
pub open spec fn well_formed(fs: Fields) -> bool {
    &&& fs.len() >= 2
    &&& fs[0].0 == key_t()
    &&& fs[1].0 == key_type()
    &&& keys_distinct(fs)
}

/// Setting a key that no member has appends it.
pub proof fn lemma_put_new_key(fs: Fields, k: Seq<char>, v: ValueView)
    requires
        forall|i: int| 0 <= i < fs.len() ==> fs[i].0 != k,
    ensures
        put(fs, k, v) == fs.push((k, v)),
    decreases fs.len(),
{
    if fs.len() > 0 {
        let rest = fs.subrange(1, fs.len() as int);
        assert forall|i: int| 0 <= i < rest.len() implies rest[i].0 != k by {
            assert(rest[i] == fs[i + 1]);
        }
        lemma_put_new_key(rest, k, v);
        assert(seq![fs[0]] + rest.push((k, v)) =~= fs.push((k, v)));
    }
}

/// Setting a key keeps every existing key in its place, and either replaces a
/// member or appends one with a key that no member had.
pub proof fn lemma_put_keys(fs: Fields, k: Seq<char>, v: ValueView)
    ensures
        put(fs, k, v).len() == fs.len() || put(fs, k, v).len() == fs.len() + 1,
        forall|i: int| 0 <= i < fs.len() ==> #[trigger] put(fs, k, v)[i].0 == fs[i].0,
        put(fs, k, v).len() == fs.len() + 1 ==> put(fs, k, v)[fs.len() as int].0 == k,
        put(fs, k, v).len() == fs.len() + 1 ==> forall|i: int| 0 <= i < fs.len() ==> #[trigger] fs[i].0 != k,
    decreases fs.len(),
{
    if fs.len() > 0 && fs[0].0 != k {
        let rest = fs.subrange(1, fs.len() as int);
        lemma_put_keys(rest, k, v);
        let p = put(fs, k, v);
        assert(p == seq![fs[0]] + put(rest, k, v));
        assert forall|i: int| 0 <= i < fs.len() implies #[trigger] p[i].0 == fs[i].0 by {
            if i > 0 {
                assert(p[i] == put(rest, k, v)[i - 1]);
                assert(rest[i - 1] == fs[i]);
            }
        }
        if p.len() == fs.len() + 1 {
            assert forall|i: int| 0 <= i < fs.len() implies #[trigger] fs[i].0 != k by {
                if i > 0 {
                    assert(rest[i - 1] == fs[i]);
                }
            }
        }
    }
}

/// Merging a payload member never disturbs the reserved members and keeps keys distinct.
pub proof fn lemma_merge_member_well_formed(fs: Fields, k: Seq<char>, v: ValueView)
    requires
        well_formed(fs),
    ensures
        well_formed(merge_member(fs, k, v)),
{
    if !is_reserved(k) {
        lemma_put_keys(fs, k, v);
        let p = put(fs, k, v);
        assert(p[0].0 == fs[0].0);
        assert(p[1].0 == fs[1].0);
        assert forall|i: int, j: int| 0 <= i < j < p.len() implies p[i].0 != p[j].0 by {
            if j < fs.len() {
                assert(p[i].0 == fs[i].0);
                assert(p[j].0 == fs[j].0);
            } else {
                assert(p[i].0 == fs[i].0);
            }
        }
    }
}

/// Merging any payload members keeps an event well formed.
pub proof fn lemma_merge_all_well_formed(fs: Fields, ms: Seq<(Seq<char>, Seq<char>)>)
    requires
        well_formed(fs),
    ensures
        well_formed(merge_all(fs, ms)),
    decreases ms.len(),
{
    if ms.len() > 0 {
        lemma_merge_all_well_formed(fs, ms.drop_last());
        lemma_merge_member_well_formed(merge_all(fs, ms.drop_last()), ms.last().0, ValueView::Raw(ms.last().1));
    }
}

pub open spec fn value_text(v: ValueView) -> Seq<char> {
    match v {
        ValueView::Num(n) => int_text(n),
        ValueView::Str(s) => json_quoted(s),
        ValueView::Raw(t) => t,
    }
}

pub open spec fn member_text(m: (Seq<char>, ValueView)) -> Seq<char> {
    json_quoted(m.0) + seq![':'] + value_text(m.1)
}

/// The members written one after another, separated by commas.
pub open spec fn members_text(fs: Fields) -> Seq<char>
    decreases fs.len(),
{
    if fs.len() == 0 {
        Seq::empty()
    } else if fs.len() == 1 {
        member_text(fs[0])
    } else {
        members_text(fs.drop_last()) + seq![','] + member_text(fs.last())
    }
}

/// One line of newline-delimited JSON holding the event.
pub open spec fn line_of(fs: Fields) -> Seq<char> {
    seq!['{'] + members_text(fs) + seq!['}', '\n']
}


impl Value {
    /// Appends the JSON text of the value.
    fn write_to(&self, out: &mut String)
        ensures
            final(out)@ == old(out)@ + value_text(self@),
    {
        match self {
            Value::Int(n) => push_int(out, *n),
            Value::UInt(n) => push_nat(out, *n),
            Value::Str(s) => {
                let q = quote(s.as_str());
                out.append(q.as_str());
            },
            Value::Raw(t) => out.append(t.as_str()),
        }
    }
}

impl CanonicalEvent {
    /// An event holding only the reserved members: `t` and then `type`.
    pub fn new(t: i64, kind: &str) -> (r: CanonicalEvent)
        ensures
            r@ == seq![(key_t(), ValueView::Num(t as int)), (key_type(), ValueView::Str(kind@))],
            well_formed(r@),
    {
        let mut fields: Vec<(String, Value)> = Vec::new();
        fields.push((String::from_str("t"), Value::Int(t)));
        fields.push((String::from_str("type"), Value::Str(String::from_str(kind))));
        let r = CanonicalEvent { fields };
        proof {
            reveal_strlit("t");
            reveal_strlit("type");
            assert(r.fields@[0].0@ =~= key_t());
            assert(r.fields@[1].0@ =~= key_type());
            assert(r@ =~= seq![(key_t(), ValueView::Num(t as int)), (key_type(), ValueView::Str(kind@))]);
        }
        r
    }

    /// Appends a member whose key the caller knows to be new.
    pub(crate) fn push_field(&mut self, key: &str, value: Value)
        ensures
            final(self)@ == old(self)@.push((key@, value@)),
    {
        self.fields.push((String::from_str(key), value));
        assert(self@ =~= old(self)@.push((key@, value@)));
    }

    /// Sets member `key` to `value`, in place when the key is present, else at the end.
    pub fn insert(&mut self, key: String, value: Value)
        ensures
            final(self)@ == put(old(self)@, key@, value@),
            well_formed(old(self)@) && !is_reserved(key@) ==> well_formed(final(self)@),
    {
        proof {
            if well_formed(self@) && !is_reserved(key@) {
                lemma_merge_member_well_formed(self@, key@, value@);
            }
        }
        let ghost fs = self@;
        let ghost k = key@;
        let ghost v = value@;
        let n = self.fields.len();
        let mut i: usize = 0;
        proof {
            assert(fs.subrange(0, n as int) =~= fs);
            assert(fs.subrange(0, 0) + put(fs, k, v) =~= put(fs, k, v));
        }
        let mut found = false;
        while i < n && !found
            invariant
                n == self.fields.len(),
                self@ == fs,
                fs.len() == n,
                k == key@,
                0 <= i < n || (i == n && !found),
                !found ==> put(fs, k, v) == fs.subrange(0, i as int) + put(fs.subrange(i as int, n as int), k, v),
                found ==> fs[i as int].0 == k && put(fs, k, v) == fs.update(i as int, (k, v)),
            decreases n - i + (if found { 0int } else { 1int }),
        {
            let ghost rest = fs.subrange(i as int, n as int);
            assert(rest[0] == fs[i as int]);
            if self.fields[i].0 == key {
                proof {
                    assert(rest.len() > 0);
                    assert(put(rest, k, v) == rest.update(0, (k, v)));
                    assert(fs.subrange(0, i as int) + rest.update(0, (k, v)) =~= fs.update(i as int, (k, v)));
                }
                found = true;
            } else {
                proof {
                    assert(rest.subrange(1, rest.len() as int) =~= fs.subrange(i + 1, n as int));
                    assert(fs.subrange(0, i as int) + seq![fs[i as int]] =~= fs.subrange(0, i + 1));
                    assert((fs.subrange(0, i as int) + seq![fs[i as int]]) + put(fs.subrange(i + 1, n as int), k, v)
                        =~= fs.subrange(0, i as int) + (seq![fs[i as int]] + put(fs.subrange(i + 1, n as int), k, v)));
                }
                i = i + 1;
            }
        }
        if found {
            self.fields.set(i, (key, value));
            assert(self@ =~= fs.update(i as int, (k, v)));
            return;
        }
        self.fields.push((key, value));
        proof {
            assert(fs.subrange(0, n as int) =~= fs);
            assert(self@ =~= fs + seq![(k, v)]);
        }
    }

    /// Merges one member of a parsed payload, whose value is JSON text; the
    /// reserved keys `t` and `type` are left as they are.
    pub fn merge(&mut self, key: String, text: String)
        ensures
            final(self)@ == merge_member(old(self)@, key@, ValueView::Raw(text@)),
            well_formed(old(self)@) ==> well_formed(final(self)@),
    {
        proof {
            if well_formed(self@) {
                lemma_merge_member_well_formed(self@, key@, ValueView::Raw(text@));
            }
        }
        let t = String::from_str("t");
        let ty = String::from_str("type");
        proof {
            reveal_strlit("t");
            reveal_strlit("type");
            assert(t@ =~= key_t());
            assert(ty@ =~= key_type());
        }
        if key == t || key == ty {
            return;
        }
        self.insert(key, Value::Raw(text));
    }

    /// The event as one line of newline-delimited JSON.
    pub fn to_line(&self) -> (r: String)
        ensures
            r@ == line_of(self@),
    {
        let mut out = String::from_str("{");
        proof {
            reveal_strlit("{");
            assert("{"@ =~= seq!['{']);
        }
        let n = self.fields.len();
        let mut i: usize = 0;
        while i < n
            invariant
                n == self.fields.len(),
                self@.len() == n,
                0 <= i <= n,
                out@ == seq!['{'] + members_text(self@.subrange(0, i as int)),
            decreases n - i,
        {
            let ghost before = out@;
            proof {
                reveal_strlit(",");
                reveal_strlit(":");
                assert(","@ =~= seq![',']);
                assert(":"@ =~= seq![':']);
            }
            if i > 0 {
                out.append(",");
            }
            assert(out@ == if i > 0 { before + seq![','] } else { before });
            let ghost mid = out@;
            let q = quote(self.fields[i].0.as_str());
            out.append(q.as_str());
            out.append(":");
            assert(out@ == mid + json_quoted(self.fields@[i as int].0@) + seq![':']);
            let ghost mid2 = out@;
            self.fields[i].1.write_to(&mut out);
            assert(out@ == mid2 + value_text(self.fields@[i as int].1@));
            proof {
                let m = self@[i as int];
                assert(m.0 == self.fields@[i as int].0@);
                assert(m.1 == self.fields@[i as int].1@);
                let sub = self@.subrange(0, i + 1);
                assert(sub.drop_last() =~= self@.subrange(0, i as int));
                assert(sub.last() == m);
                if i == 0 {
                    assert(out@ =~= before + member_text(m));
                    assert(members_text(sub) == member_text(m));
                } else {
                    assert(out@ =~= before + seq![','] + member_text(m));
                }
                assert(out@ =~= seq!['{'] + members_text(sub));
            }
            i = i + 1;
        }
        out.append("}\n");
        proof {
            reveal_strlit("}\n");
            assert("}\n"@ =~= seq!['}', '\n']);
            assert(self@.subrange(0, n as int) =~= self@);
            assert(out@ =~= line_of(self@));
        }
        out
    }
}

} // verus!
