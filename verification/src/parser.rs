//! Bencoded values: reading them with `serde_bencode`, and writing them out
//! as readable text.

use crate::text::{decimal, to_decimal};
use vstd::prelude::*;
use vstd::string::StringExecFns;
use vstd::string::StringSliceAdditionalSpecFns;

verus! {

/// A bencoded value.
#[derive(Debug, PartialEq, Eq)]
pub enum Bencode {
    /// A string of bytes.
    Bytes(Vec<u8>),
    /// An integer.
    Int(i64),
    /// A list of values.
    List(Vec<Bencode>),
    /// A dictionary: keys with their values, no key twice, in no set order.
    Dict(Vec<(Vec<u8>, Bencode)>),
}

/// The value type of `serde_bencode`, carried through without a look inside.
#[verifier::external_type_specification]
#[verifier::external_body]
pub struct ExBencodeValue(serde_bencode::value::Value);

/// Whether `serde_bencode` reads a value from the beginning of `text`.
pub uninterp spec fn bencode_accepts(text: Seq<char>) -> bool;

/// Reads a value with `serde_bencode::from_str`.
///
/// Trusted: whether a value is read depends on the text alone. The parser
/// reports what it cannot read as an error; it descends once for each level
/// of nesting.
#[verifier::external_body]
fn parse_value(text: &str) -> (r: Option<serde_bencode::value::Value>)
    ensures
        r is Some <==> bencode_accepts(text@),
{
    serde_bencode::from_str::<serde_bencode::value::Value>(text).ok()
}

/// Copies a value of `serde_bencode` into a `Bencode`, variant by variant.
///
/// Trusted: nothing is claimed of the result. The entries of a dictionary
/// come in the order in which the hash map hands them out.
#[verifier::external_body]
fn lift_value(value: &serde_bencode::value::Value) -> (lifted: Bencode) {
    match value {
        serde_bencode::value::Value::Bytes(bytes) => Bencode::Bytes(bytes.clone()),
        serde_bencode::value::Value::Int(n) => Bencode::Int(*n),
        serde_bencode::value::Value::List(items) => Bencode::List(
            items.iter().map(lift_value).collect(),
        ),
        serde_bencode::value::Value::Dict(entries) => Bencode::Dict(
            entries.iter().map(|(key, item)| (key.clone(), lift_value(item))).collect(),
        ),
    }
}

/// Reads a bencoded value from the beginning of `encoded_value`.
///
/// Returns `None` exactly when the text does not begin with a bencoded value.
pub fn decode(encoded_value: &str) -> (r: Option<Bencode>)
    ensures
        r is Some <==> bencode_accepts(encoded_value@),
{
    match parse_value(encoded_value) {
        Some(value) => Some(lift_value(&value)),
        None => None,
    }
}

/// Reads bytes as UTF-8 with `std::str::from_utf8`.
///
/// Trusted: the bytes are accepted exactly when they are valid UTF-8, and
/// the string then holds the very bytes given.
#[verifier::external_body]
fn utf8_text(bytes: &[u8]) -> (r: Option<&str>)
    ensures
        r is Some <==> vstd::utf8::valid_utf8(bytes@),
        r matches Some(text) ==> text.spec_bytes() == bytes@,
{
    std::str::from_utf8(bytes).ok()
}

/// Text in double quotes with its special characters escaped, as `Debug`
/// writes a string.
pub uninterp spec fn debug_quoted(text: Seq<char>) -> Seq<char>;

/// Quotes text as `Debug` for `str` does.
///
/// Trusted: the result depends on the characters of the text alone.
#[verifier::external_body]
fn quoted(text: &str) -> (r: String)
    ensures
        r@ == debug_quoted(text@),
{
    format!("{:?}", text)
}

/// Bytes read as UTF-8, with the replacement character in place of what is
/// not valid.
pub uninterp spec fn lossy_text(bytes: Seq<u8>) -> Seq<char>;

/// Reads bytes as UTF-8 with `String::from_utf8_lossy`.
///
/// Trusted: the result depends on the bytes alone.
#[verifier::external_body]
fn lossy(bytes: &[u8]) -> (r: String)
    ensures
        r@ == lossy_text(bytes@),
{
    String::from_utf8_lossy(bytes).into_owned()
}

/// The text of a signed number: a minus sign where it is negative, and its
/// decimal digits.
pub open spec fn signed_decimal(n: int) -> Seq<char> {
    if n < 0 {
        seq!['-'] + decimal((-n) as nat)
    } else {
        decimal(n as nat)
    }
}

/// Texts one after another, with `,` between them.
pub open spec fn joined(parts: Seq<Seq<char>>) -> Seq<char>
    decreases parts.len(),
{
    if parts.len() == 0 {
        Seq::empty()
    } else if parts.len() == 1 {
        parts[0]
    } else {
        joined(parts.drop_last()) + seq![','] + parts.last()
    }
}

/// Whether `a` comes before `b`, or is `b`, in the order of a dictionary:
/// byte by byte, and a string before every longer string that begins with it.
pub open spec fn bytes_le(a: Seq<u8>, b: Seq<u8>) -> bool
    decreases a.len(),
{
    if a.len() == 0 {
        true
    } else if b.len() == 0 {
        false
    } else if a[0] != b[0] {
        a[0] < b[0]
    } else {
        bytes_le(a.drop_first(), b.drop_first())
    }
}

/// The order of texts: that of their bytes in UTF-8.
pub open spec fn text_le(a: Seq<char>, b: Seq<char>) -> bool {
    bytes_le(vstd::utf8::encode_utf8(a), vstd::utf8::encode_utf8(b))
}

/// The order of texts, as a relation.
pub open spec fn text_order() -> spec_fn(Seq<char>, Seq<char>) -> bool {
    |a: Seq<char>, b: Seq<char>| text_le(a, b)
}

/// One entry of a dictionary as text: the key in double quotes, a colon,
/// and the value.
pub open spec fn entry_text(key: Seq<u8>, value: Seq<char>) -> Seq<char> {
    seq!['"'] + lossy_text(key) + seq!['"', ':'] + value
}

/// A value as text. A byte string is quoted, a number is written in
/// decimal, a list stands in square brackets, and a dictionary stands in
/// braces with its entries sorted as texts.
pub open spec fn rendered(value: Bencode) -> Seq<char>
    decreases value,
{
    match value {
        Bencode::Bytes(bytes) => debug_quoted(vstd::utf8::decode_utf8(bytes@)),
        Bencode::Int(n) => signed_decimal(n as int),
        Bencode::List(items) => seq!['['] + joined(rendered_items(items@)) + seq![']'],
        Bencode::Dict(entries) => seq!['{'] + joined(
            rendered_entries(entries@).sort_by(text_order()),
        ) + seq!['}'],
    }
}

/// The texts of the items of a list, in the order of the list.
pub open spec fn rendered_items(items: Seq<Bencode>) -> Seq<Seq<char>>
    decreases items,
{
    Seq::new(
        items.len(),
        |i: int|
            if 0 <= i < items.len() {
                rendered(items[i])
            } else {
                Seq::empty()
            },
    )
}

/// The texts of the entries of a dictionary, in the order in which the
/// dictionary holds them.
pub open spec fn rendered_entries(entries: Seq<(Vec<u8>, Bencode)>) -> Seq<Seq<char>>
    decreases entries,
{
    Seq::new(
        entries.len(),
        |i: int|
            if 0 <= i < entries.len() {
                entry_text(entries[i].0@, rendered(entries[i].1))
            } else {
                Seq::empty()
            },
    )
}

/// Whether a value can be written as text: every byte string in it that is
/// not a key is valid UTF-8.
pub open spec fn printable(value: Bencode) -> bool
    decreases value,
{
    match value {
        Bencode::Bytes(bytes) => vstd::utf8::valid_utf8(bytes@),
        Bencode::Int(_) => true,
        Bencode::List(items) => forall|i: int|
            0 <= i < items@.len() ==> printable(#[trigger] items@[i]),
        Bencode::Dict(entries) => forall|i: int|
            0 <= i < entries@.len() ==> printable((#[trigger] entries@[i]).1),
    }
}

/// Every byte string comes before itself or is itself.
pub proof fn lemma_bytes_le_reflexive(a: Seq<u8>)
    ensures
        bytes_le(a, a),
    decreases a.len(),
{
    if a.len() > 0 {
        lemma_bytes_le_reflexive(a.drop_first());
    }
}

/// Two byte strings that come before each other are one.
pub proof fn lemma_bytes_le_antisymmetric(a: Seq<u8>, b: Seq<u8>)
    requires
        bytes_le(a, b),
        bytes_le(b, a),
    ensures
        a == b,
    decreases a.len(),
{
    if a.len() > 0 {
        lemma_bytes_le_antisymmetric(a.drop_first(), b.drop_first());
        assert(a =~= seq![a[0]] + a.drop_first());
        assert(b =~= seq![b[0]] + b.drop_first());
    } else {
        assert(a =~= b);
    }
}

/// What comes before something that comes before a third comes before the
/// third.
pub proof fn lemma_bytes_le_transitive(a: Seq<u8>, b: Seq<u8>, c: Seq<u8>)
    requires
        bytes_le(a, b),
        bytes_le(b, c),
    ensures
        bytes_le(a, c),
    decreases a.len(),
{
    if a.len() > 0 && a[0] == b[0] && b[0] == c[0] {
        lemma_bytes_le_transitive(a.drop_first(), b.drop_first(), c.drop_first());
    }
}

/// Of two byte strings one comes before the other.
pub proof fn lemma_bytes_le_total(a: Seq<u8>, b: Seq<u8>)
    ensures
        bytes_le(a, b) || bytes_le(b, a),
    decreases a.len(),
{
    if a.len() > 0 && b.len() > 0 && a[0] == b[0] {
        lemma_bytes_le_total(a.drop_first(), b.drop_first());
    }
}

/// The order of texts is a total order.
pub proof fn lemma_text_order()
    ensures
        vstd::relations::total_ordering(text_order()),
{
    let r = text_order();
    assert forall|x: Seq<char>| #[trigger] r(x, x) by {
        lemma_bytes_le_reflexive(vstd::utf8::encode_utf8(x));
    }
    assert forall|x: Seq<char>, y: Seq<char>| #[trigger] r(x, y) && #[trigger] r(y, x) implies x
        == y by {
        lemma_bytes_le_antisymmetric(vstd::utf8::encode_utf8(x), vstd::utf8::encode_utf8(y));
        vstd::utf8::encode_utf8_decode_utf8(x);
        vstd::utf8::encode_utf8_decode_utf8(y);
    }
    assert forall|x: Seq<char>, y: Seq<char>, z: Seq<char>| #[trigger]
        r(x, y) && #[trigger] r(y, z) implies r(x, z) by {
        lemma_bytes_le_transitive(
            vstd::utf8::encode_utf8(x),
            vstd::utf8::encode_utf8(y),
            vstd::utf8::encode_utf8(z),
        );
    }
    assert forall|x: Seq<char>, y: Seq<char>| #[trigger] r(x, y) || #[trigger] r(y, x) by {
        lemma_bytes_le_total(vstd::utf8::encode_utf8(x), vstd::utf8::encode_utf8(y));
    }
}

/// Whether `a` comes before `b`, or is `b`, in the order of texts.
pub fn text_before(a: &str, b: &str) -> (before: bool)
    ensures
        before == text_le(a@, b@),
{
    let left = a.as_bytes();
    let right = b.as_bytes();
    let mut i: usize = 0;
    assert(left@.subrange(0, left@.len() as int) =~= left@);
    assert(right@.subrange(0, right@.len() as int) =~= right@);
    loop
        invariant
            i <= left@.len(),
            i <= right@.len(),
            text_le(a@, b@) == bytes_le(
                left@.subrange(i as int, left@.len() as int),
                right@.subrange(i as int, right@.len() as int),
            ),
        decreases left@.len() - i,
    {
        if i == left.len() {
            return true;
        }
        if i == right.len() {
            return false;
        }
        if left[i] != right[i] {
            return left[i] < right[i];
        }
        assert(left@.subrange(i as int, left@.len() as int).drop_first() =~= left@.subrange(
            i + 1,
            left@.len() as int,
        ));
        assert(right@.subrange(i as int, right@.len() as int).drop_first() =~= right@.subrange(
            i + 1,
            right@.len() as int,
        ));
        i += 1;
    }
}

/// Sorts texts.
pub fn sort_texts(list: &Vec<String>) -> (sorted: Vec<String>)
    ensures
        sorted.deep_view() == list.deep_view().sort_by(text_order()),
{
    let mut sorted: Vec<String> = Vec::new();
    let mut i: usize = 0;
    proof {
        lemma_text_order();
        assert(list.deep_view().subrange(0, 0) =~= sorted.deep_view());
    }
    while i < list.len()
        invariant
            i <= list@.len(),
            vstd::relations::total_ordering(text_order()),
            vstd::relations::sorted_by(sorted.deep_view(), text_order()),
            sorted.deep_view().to_multiset() == list.deep_view().subrange(
                0,
                i as int,
            ).to_multiset(),
        decreases list@.len() - i,
    {
        let item = list[i].clone();
        let mut j: usize = 0;
        while j < sorted.len() && text_before(sorted[j].as_str(), item.as_str())
            invariant
                j <= sorted@.len(),
                forall|k: int| 0 <= k < j ==> text_le(#[trigger] sorted@[k]@, item@),
            decreases sorted@.len() - j,
        {
            j += 1;
        }
        let ghost before = sorted.deep_view();
        let ghost seen = list.deep_view().subrange(0, i as int);
        sorted.insert(j, item);
        proof {
            let after = sorted.deep_view();
            let r = text_order();
            assert(after =~= before.insert(j as int, item@));
            vstd::seq_lib::to_multiset_insert(before, j as int, item@);
            let next = list.deep_view().subrange(0, i + 1);
            assert(next =~= seen.push(item@));
            vstd::seq_lib::to_multiset_build(seen, item@);
            assert forall|x: int, y: int| 0 <= x < y < after.len() implies #[trigger] r(
                after[x],
                after[y],
            ) by {
                if y < j {
                    assert(r(before[x], before[y]));
                } else if y == j {
                    assert(text_le(before[x], item@));
                } else if x == j {
                    if j < y - 1 {
                        assert(r(before[j as int], before[y - 1]));
                    }
                    assert(!text_le(before[j as int], item@));
                    assert(r(before[j as int], item@) || r(item@, before[j as int]));
                    assert(r(item@, before[j as int]) && r(before[j as int], before[y - 1])
                        ==> r(item@, before[y - 1]));
                } else if x < j {
                    assert(r(before[x], before[y - 1]));
                } else {
                    assert(r(before[x - 1], before[y - 1]));
                }
            }
        }
        i += 1;
    }
    proof {
        let all = list.deep_view();
        assert(all.subrange(0, i as int) =~= all);
        all.lemma_sort_by_ensures(text_order());
        vstd::seq_lib::lemma_sorted_unique(sorted.deep_view(), all.sort_by(text_order()), text_order());
    }
    sorted
}

/// Writes texts one after another, with `,` between them.
pub fn join_texts(parts: &Vec<String>) -> (text: String)
    ensures
        text@ == joined(parts.deep_view()),
{
    proof {
        reveal_strlit(",");
    }
    let mut text = String::new();
    let mut i: usize = 0;
    while i < parts.len()
        invariant
            i <= parts@.len(),
            ","@ == seq![','],
            text@ == joined(parts.deep_view().subrange(0, i as int)),
        decreases parts@.len() - i,
    {
        let ghost next = parts.deep_view().subrange(0, i + 1);
        proof {
            assert(next.drop_last() =~= parts.deep_view().subrange(0, i as int));
            assert(next.last() == parts@[i as int]@);
        }
        if i > 0 {
            text.append(",");
        }
        text.append(parts[i].as_str());
        i += 1;
        assert(text@ =~= joined(next));
    }
    assert(parts.deep_view().subrange(0, i as int) =~= parts.deep_view());
    text
}

/// Writes a signed number in decimal.
pub fn to_signed_decimal(n: i64) -> (text: String)
    ensures
        text@ == signed_decimal(n as int),
{
    if n < 0 {
        proof {
            reveal_strlit("-");
        }
        let magnitude: u64 = (-(n + 1)) as u64 + 1;
        let mut text = String::from_str("-");
        text.append(to_decimal(magnitude).as_str());
        assert(text@ =~= signed_decimal(n as int));
        text
    } else {
        to_decimal(n as u64)
    }
}

/// Checks that a value can be written as text.
#[verifier::loop_isolation(false)]
pub fn is_printable(value: &Bencode) -> (r: bool)
    ensures
        r == printable(*value),
    decreases value,
{
    match value {
        Bencode::Bytes(bytes) => utf8_text(bytes.as_slice()).is_some(),
        Bencode::Int(_) => true,
        Bencode::List(items) => {
            let mut i: usize = 0;
            while i < items.len()
                invariant
                    i <= items@.len(),
                    forall|k: int| 0 <= k < i ==> printable(#[trigger] items@[k]),
                decreases items@.len() - i,
            {
                if !is_printable(&items[i]) {
                    return false;
                }
                i += 1;
            }
            true
        },
        Bencode::Dict(entries) => {
            let mut i: usize = 0;
            while i < entries.len()
                invariant
                    i <= entries@.len(),
                    forall|k: int| 0 <= k < i ==> printable((#[trigger] entries@[k]).1),
                decreases entries@.len() - i,
            {
                if !is_printable(&entries[i].1) {
                    return false;
                }
                i += 1;
            }
            true
        },
    }
}

/// Writes a value as text.
#[verifier::loop_isolation(false)]
pub fn render(value: &Bencode) -> (text: String)
    requires
        printable(*value),
    ensures
        text@ == rendered(*value),
    decreases value,
{
    match value {
        Bencode::Bytes(bytes) => {
            match utf8_text(bytes.as_slice()) {
                Some(text) => {
                    proof {
                        vstd::utf8::encode_utf8_decode_utf8(text@);
                    }
                    quoted(text)
                },
                None => String::new(),
            }
        },
        Bencode::Int(n) => to_signed_decimal(*n),
        Bencode::List(items) => {
            proof {
                reveal_strlit("[");
                reveal_strlit("]");
            }
            let ghost all = rendered_items(items@);
            let mut parts: Vec<String> = Vec::new();
            let mut i: usize = 0;
            while i < items.len()
                invariant
                    i <= items@.len(),
                    parts@.len() == i,
                    forall|k: int| 0 <= k < i ==> (#[trigger] parts@[k])@ == rendered(items@[k]),
                decreases items@.len() - i,
            {
                assert(printable(items@[i as int]));
                parts.push(render(&items[i]));
                i += 1;
            }
            assert(parts.deep_view() =~= all);
            let mut text = String::from_str("[");
            text.append(join_texts(&parts).as_str());
            text.append("]");
            assert(text@ =~= seq!['['] + joined(all) + seq![']']);
            assert(rendered(*value) == seq!['['] + joined(all) + seq![']']);
            text
        },
        Bencode::Dict(entries) => {
            proof {
                reveal_strlit("{");
                reveal_strlit("}");
                reveal_strlit("\"");
                reveal_strlit("\":");
            }
            let ghost all = rendered_entries(entries@);
            let mut parts: Vec<String> = Vec::new();
            let mut i: usize = 0;
            while i < entries.len()
                invariant
                    i <= entries@.len(),
                    "\""@ == seq!['"'],
                    "\":"@ == seq!['"', ':'],
                    parts@.len() == i,
                    forall|k: int|
                        0 <= k < i ==> (#[trigger] parts@[k])@ == entry_text(
                            entries@[k].0@,
                            rendered(entries@[k].1),
                        ),
                decreases entries@.len() - i,
            {
                assert(printable(entries@[i as int].1));
                let mut part = String::from_str("\"");
                part.append(lossy(entries[i].0.as_slice()).as_str());
                part.append("\":");
                part.append(render(&entries[i].1).as_str());
                assert(part@ =~= entry_text(entries@[i as int].0@, rendered(entries@[i as int].1)));
                parts.push(part);
                i += 1;
            }
            assert(parts.deep_view() =~= all);
            let sorted = sort_texts(&parts);
            let mut text = String::from_str("{");
            text.append(join_texts(&sorted).as_str());
            text.append("}");
            assert(text@ =~= seq!['{'] + joined(all.sort_by(text_order())) + seq!['}']);
            assert(rendered(*value) == seq!['{'] + joined(all.sort_by(text_order())) + seq!['}']);
            text
        },
    }
}

/// Values that can be written out as text.
pub trait ValueToString {
    /// The text of the value.
    spec fn text(&self) -> Seq<char>;

    /// Whether the value can be written as text.
    spec fn has_text(&self) -> bool;

    /// Writes the value as text.
    fn to_string(&self) -> (text: String)
        requires
            self.has_text(),
        ensures
            text@ == self.text(),
    ;
}

impl ValueToString for Bencode {
    open spec fn text(&self) -> Seq<char> {
        rendered(*self)
    }

    open spec fn has_text(&self) -> bool {
        printable(*self)
    }

    fn to_string(&self) -> (text: String) {
        render(self)
    }
}

} // verus!
