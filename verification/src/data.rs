//! Structured data: the tree that a CBOR item or a JSON text decodes to.

use std::io::Cursor;

use ciborium::value::Value as Cbor;

use vstd::prelude::*;
use vstd::utf8::encode_utf8;

use crate::text::{join3, text_equal};

verus! {

/// A decoded data item.
#[derive(Debug, PartialEq)]
pub enum DataItem {
    /// An integer.
    Integer(i128),
    /// A byte string.
    Bytes(Vec<u8>),
    /// A floating-point number, by its IEEE 754 double-precision bits. Which sign and
    /// payload a NaN has is not specified.
    Float(u64),
    /// A text string.
    Text(String),
    /// A boolean.
    Bool(bool),
    /// Null.
    Null,
    /// A tagged item.
    Tag(u64, Box<DataItem>),
    /// An array.
    Array(Vec<DataItem>),
    /// A map: its entries in the order in which they were written, repeated keys included.
    Dict(Vec<(DataItem, DataItem)>),
    /// Any other kind of item.
    Other,
}

/// The mathematical form of a [`DataItem`]. Here all NaN patterns are one value.
pub ghost enum Item {
    Integer(int),
    Bytes(Seq<u8>),
    Float(u64),
    Text(Seq<char>),
    Bool(bool),
    Null,
    Tag(u64, Box<Item>),
    Array(Seq<Item>),
    Dict(Seq<(Item, Item)>),
    Other,
}

/// The bits of a floating-point number, where every pattern of a NaN counts as the same
/// one: which of them a conversion between precisions gives is left to the machine.
pub open spec fn float_bits(bits: u64) -> u64 {
    if bits % 0x8000_0000_0000_0000 > 0x7FF0_0000_0000_0000 {
        0x7FF8_0000_0000_0000
    } else {
        bits
    }
}

/// What a value holds. All NaN patterns are one value.
pub open spec fn item(v: DataItem) -> Item
    decreases v,
{
    match v {
        DataItem::Integer(i) => Item::Integer(i as int),
        DataItem::Bytes(b) => Item::Bytes(b@),
        DataItem::Float(bits) => Item::Float(float_bits(bits)),
        DataItem::Text(s) => Item::Text(s@),
        DataItem::Bool(b) => Item::Bool(b),
        DataItem::Null => Item::Null,
        DataItem::Tag(t, inner) => Item::Tag(t, Box::new(item(*inner))),
        DataItem::Array(a) => Item::Array(
            Seq::new(
                a@.len(),
                |i: int|
                    if 0 <= i < a@.len() {
                        item(a@[i])
                    } else {
                        Item::Null
                    },
            ),
        ),
        DataItem::Dict(m) => Item::Dict(
            Seq::new(
                m@.len(),
                |i: int|
                    if 0 <= i < m@.len() {
                        (item(m@[i].0), item(m@[i].1))
                    } else {
                        (Item::Null, Item::Null)
                    },
            ),
        ),
        DataItem::Other => Item::Other,
    }
}

impl View for DataItem {
    type V = Item;

    open spec fn view(&self) -> Item {
        item(*self)
    }
}

/// The view of an optional value.
pub open spec fn maybe<T: View>(o: Option<T>) -> Option<T::V> {
    match o {
        Some(v) => Some(v@),
        None => None,
    }
}

/// What the entries of a map hold.
pub open spec fn entries(m: Seq<(DataItem, DataItem)>) -> Seq<(Item, Item)> {
    m.map_values(|e: (DataItem, DataItem)| (e.0@, e.1@))
}

/// What the elements of an array hold.
pub open spec fn items(a: Seq<DataItem>) -> Seq<Item> {
    a.map_values(|v: DataItem| v@)
}

/// Whether no byte string in an item, and no text in UTF-8, is longer than `n`.
pub open spec fn fits(v: Item, n: nat) -> bool
    decreases v,
{
    match v {
        Item::Bytes(b) => b.len() <= n,
        Item::Text(s) => encode_utf8(s).len() <= n,
        Item::Tag(_, inner) => fits(*inner, n),
        Item::Array(a) => forall|i: int| 0 <= i < a.len() ==> fits(#[trigger] a[i], n),
        Item::Dict(m) => forall|i: int|
            0 <= i < m.len() ==> fits((#[trigger] m[i]).0, n) && fits(m[i].1, n),
        _ => true,
    }
}

/// What an array or a map that fits holds fits too.
pub proof fn lemma_fits(v: Item, n: nat)
    requires
        fits(v, n),
    ensures
        v matches Item::Array(a) ==> forall|i: int| 0 <= i < a.len() ==> fits(#[trigger] a[i], n),
        v matches Item::Dict(m) ==> forall|i: int|
            0 <= i < m.len() ==> fits((#[trigger] m[i]).0, n) && fits(m[i].1, n),
{
}

/// What fits a bound fits a larger one.
pub proof fn lemma_fits_more(v: Item, n: nat, more: nat)
    requires
        fits(v, n),
        n <= more,
    ensures
        fits(v, more),
    decreases v,
{
    match v {
        Item::Tag(_, inner) => {
            lemma_fits_more(*inner, n, more);
        },
        Item::Array(a) => {
            assert forall|i: int| 0 <= i < a.len() implies fits(#[trigger] a[i], more) by {
                lemma_fits_more(a[i], n, more);
            }
        },
        Item::Dict(m) => {
            assert forall|i: int| 0 <= i < m.len() implies fits((#[trigger] m[i]).0, more) && fits(
                m[i].1,
                more,
            ) by {
                lemma_fits_more(m[i].0, n, more);
                lemma_fits_more(m[i].1, n, more);
            }
        },
        _ => {},
    }
}

/// Whether no byte string in an item, and no text in UTF-8, is longer than `n`.
pub fn fits_within(v: &DataItem, n: u64) -> (fitting: bool)
    ensures
        fitting == fits(v@, n as nat),
    decreases *v,
{
    match v {
        DataItem::Bytes(b) => b.len() as u64 <= n,
        DataItem::Text(s) => s.as_str().as_bytes().len() as u64 <= n,
        DataItem::Tag(_, inner) => fits_within(inner, n),
        DataItem::Array(a) => {
            proof {
                lemma_array(*a);
            }
            let mut i: usize = 0;
            while i < a.len()
                invariant
                    i <= a@.len(),
                    v@ == Item::Array(items(a@)),
                    *v == DataItem::Array(*a),
                    forall|k: int| 0 <= k < i ==> fits(#[trigger] items(a@)[k], n as nat),
                decreases a.len() - i,
            {
                assert(items(a@)[i as int] == a@[i as int]@);
                if !fits_within(&a[i], n) {
                    proof {
                        if fits(v@, n as nat) {
                            lemma_fits(v@, n as nat);
                        }
                    }
                    return false;
                }
                i += 1;
            }
            true
        },
        DataItem::Dict(m) => {
            proof {
                lemma_dict(*m);
            }
            let mut i: usize = 0;
            while i < m.len()
                invariant
                    i <= m@.len(),
                    v@ == Item::Dict(entries(m@)),
                    *v == DataItem::Dict(*m),
                    forall|k: int|
                        0 <= k < i ==> fits((#[trigger] entries(m@)[k]).0, n as nat) && fits(
                            entries(m@)[k].1,
                            n as nat,
                        ),
                decreases m.len() - i,
            {
                assert(entries(m@)[i as int] == (m@[i as int].0@, m@[i as int].1@));
                if !fits_within(&m[i].0, n) || !fits_within(&m[i].1, n) {
                    proof {
                        if fits(v@, n as nat) {
                            lemma_fits(v@, n as nat);
                        }
                    }
                    return false;
                }
                i += 1;
            }
            true
        },
        _ => true,
    }
}

/// The value of the first entry whose key is the text `key`.
pub open spec fn member(m: Seq<(Item, Item)>, key: Seq<char>) -> Option<Item>
    decreases m.len(),
{
    if m.len() == 0 {
        None
    } else if m[0].0 == Item::Text(key) {
        Some(m[0].1)
    } else {
        member(m.drop_first(), key)
    }
}

/// A map is viewed entry by entry.
pub proof fn lemma_dict(m: Vec<(DataItem, DataItem)>)
    ensures
        DataItem::Dict(m)@ == Item::Dict(entries(m@)),
{
    assert(DataItem::Dict(m)@->Dict_0 =~= entries(m@));
}

/// An array is viewed element by element.
pub proof fn lemma_array(a: Vec<DataItem>)
    ensures
        DataItem::Array(a)@ == Item::Array(items(a@)),
{
    assert(DataItem::Array(a)@->Array_0 =~= items(a@));
}

/// Looks up the first entry whose key is the text `key`.
pub fn find_value<'a>(map: &'a Vec<(DataItem, DataItem)>, key: &str) -> (r: Option<&'a DataItem>)
    ensures
        maybe(r) == member(entries(map@), key@),
{
    let mut i: usize = 0;
    assert(entries(map@).skip(0) =~= entries(map@));
    while i < map.len()
        invariant
            i <= map@.len(),
            member(entries(map@).skip(i as int), key@) == member(entries(map@), key@),
        decreases map.len() - i,
    {
        let ghost rest = entries(map@).skip(i as int);
        assert(rest[0] == (map@[i as int].0@, map@[i as int].1@));
        assert(rest.drop_first() =~= entries(map@).skip(i + 1));
        if let DataItem::Text(s) = &map[i].0 {
            if text_equal(s.as_str(), key) {
                return Some(&map[i].1);
            }
        }
        i += 1;
    }
    None
}

/// The decoder's own tree.
#[verifier::external_type_specification]
#[verifier::external_body]
pub struct ExCiboriumValue(ciborium::value::Value);

/// What the decoder's tree holds.
pub uninterp spec fn decoded(v: ciborium::value::Value) -> Item;

/// The CBOR item at the start of a byte string, with the number of bytes that it
/// takes, or the decoder's message where there is none.
pub uninterp spec fn cbor_item(bytes: Seq<u8>) -> Result<(Item, nat), Seq<char>>;

/// The value of a JSON text, or the parser's message where it is none.
pub uninterp spec fn json_item(bytes: Seq<u8>) -> Result<Item, Seq<char>>;

/// `ciborium::from_reader` on a cursor over `bytes`: decodes the item at the start
/// and leaves the cursor behind it. An item takes at least one byte, and what it returns
/// depends on the bytes that the item takes alone, not on those behind it; byte strings,
/// texts and the digits of big integers are copied out of them, so none is longer than the
/// input. Of a NaN nothing is claimed but that it is one: its sign and payload may differ
/// from one decoding to the next.
#[verifier::external_body]
fn read_cbor(bytes: &[u8]) -> (r: Result<(ciborium::value::Value, usize), String>)
    ensures
        match r {
            Ok((v, used)) => cbor_item(bytes@) == Ok::<(Item, nat), Seq<char>>(
                (decoded(v), used as nat),
            ) && 0 < used <= bytes@.len() && fits(decoded(v), bytes@.len()) && forall|
                tail: Seq<u8>,
            |
                #[trigger] cbor_item(bytes@.take(used as int) + tail) == cbor_item(bytes@),
            Err(message) => cbor_item(bytes@) == Err::<(Item, nat), Seq<char>>(message@),
        },
{
    let mut cursor = Cursor::new(bytes);
    match ciborium::from_reader(&mut cursor) {
        Ok(v) => Ok((v, cursor.position() as usize)),
        Err(e) => Err(format!("{e}")),
    }
}

/// `serde_json::from_slice`: parses a whole JSON text. Objects become maps that keep
/// every member, in order. What it returns depends on the bytes alone; a string in it
/// takes no more bytes than it does in the text.
#[verifier::external_body]
fn read_json(bytes: &[u8]) -> (r: Result<ciborium::value::Value, String>)
    ensures
        match r {
            Ok(v) => json_item(bytes@) == Ok::<Item, Seq<char>>(decoded(v)) && fits(
                decoded(v),
                bytes@.len(),
            ),
            Err(message) => json_item(bytes@) == Err::<Item, Seq<char>>(message@),
        },
{
    match serde_json::from_slice(bytes) {
        Ok(v) => Ok(v),
        Err(e) => Err(format!("{e}")),
    }
}

/// The variants of `ciborium::value::Value`, one for one.
#[verifier::external_body]
fn convert(v: Cbor) -> (r: DataItem)
    ensures
        r@ == decoded(v),
{
    match v {
        Cbor::Integer(i) => DataItem::Integer(i.into()),
        Cbor::Bytes(b) => DataItem::Bytes(b),
        Cbor::Float(f) => DataItem::Float(f.to_bits()),
        Cbor::Text(s) => DataItem::Text(s),
        Cbor::Bool(b) => DataItem::Bool(b),
        Cbor::Null => DataItem::Null,
        Cbor::Tag(t, i) => DataItem::Tag(t, Box::new(convert(*i))),
        Cbor::Array(a) => DataItem::Array(a.into_iter().map(convert).collect()),
        Cbor::Map(m) => DataItem::Dict(
            m.into_iter().map(|e| (convert(e.0), convert(e.1))).collect(),
        ),
        _ => DataItem::Other,
    }
}

/// Decodes the CBOR item at the start of `bytes`; returns it with the number of
/// bytes that it takes. Bytes after it are left alone.
pub fn decode_cbor(bytes: &[u8]) -> (r: Result<(DataItem, usize), String>)
    ensures
        match r {
            Ok((v, used)) => cbor_item(bytes@) == Ok::<(Item, nat), Seq<char>>((v@, used as nat))
                && 0 < used <= bytes@.len() && fits(v@, bytes@.len()) && forall|tail: Seq<u8>|
                #[trigger] cbor_item(bytes@.take(used as int) + tail) == cbor_item(bytes@),
            Err(message) => cbor_item(bytes@) == Err::<(Item, nat), Seq<char>>(message@),
        },
{
    match read_cbor(bytes) {
        Ok((v, used)) => Ok((convert(v), used)),
        Err(message) => Err(message),
    }
}

/// Parses a JSON text.
pub fn decode_json(bytes: &[u8]) -> (r: Result<DataItem, String>)
    ensures
        match r {
            Ok(v) => json_item(bytes@) == Ok::<Item, Seq<char>>(v@) && fits(v@, bytes@.len()),
            Err(message) => json_item(bytes@) == Err::<Item, Seq<char>>(message@),
        },
{
    match read_json(bytes) {
        Ok(v) => Ok(convert(v)),
        Err(message) => Err(message),
    }
}

/// How many entries have the text `key` as their key.
pub open spec fn occurrences(m: Seq<(Item, Item)>, key: Seq<char>) -> nat
    decreases m.len(),
{
    if m.len() == 0 {
        0
    } else {
        occurrences(m.drop_last(), key) + if m.last().0 == Item::Text(key) {
            1nat
        } else {
            0nat
        }
    }
}

/// Whether `name` is the key of more than one entry of a map.
pub open spec fn repeats(v: Item, name: Seq<char>) -> bool {
    v matches Item::Dict(m) && occurrences(m, name) > 1
}

/// A field of a record, which is written either as a map, by name, or as an array, by
/// position.
pub open spec fn record_field(v: Item, name: Seq<char>, position: nat) -> Option<Item> {
    match v {
        Item::Dict(m) => member(m, name),
        Item::Array(a) => if position < a.len() {
            Some(a[position as int])
        } else {
            None
        },
        _ => None,
    }
}

/// Whether an item can be a record: a map, or an array of between `least` and `most`
/// elements.
pub open spec fn is_record(v: Item, least: nat, most: nat) -> bool {
    match v {
        Item::Dict(_) => true,
        Item::Array(a) => least <= a.len() <= most,
        _ => false,
    }
}

/// Whether `name` is the key of more than one entry of a map.
pub fn field_repeats(v: &DataItem, name: &str) -> (repeated: bool)
    ensures
        repeated == repeats(v@, name@),
{
    let m = match v {
        DataItem::Dict(m) => m,
        _ => return false,
    };
    proof {
        lemma_dict(*m);
    }
    let ghost all = entries(m@);
    let mut count: usize = 0;
    let mut i: usize = 0;
    assert(all.take(0) =~= Seq::<(Item, Item)>::empty());
    while i < m.len()
        invariant
            i <= m@.len(),
            count <= i,
            all == entries(m@),
            count == occurrences(all.take(i as int), name@),
        decreases m.len() - i,
    {
        let ghost longer = all.take(i + 1);
        assert(longer.drop_last() =~= all.take(i as int));
        assert(longer.last() == (m@[i as int].0@, m@[i as int].1@));
        if let DataItem::Text(s) = &m[i].0 {
            if text_equal(s.as_str(), name) {
                count += 1;
            }
        }
        i += 1;
    }
    assert(all.take(all.len() as int) =~= all);
    count > 1
}

/// Looks up a field of a record.
pub fn find_field<'a>(v: &'a DataItem, name: &str, position: usize) -> (r: Option<&'a DataItem>)
    ensures
        maybe(r) == record_field(v@, name@, position as nat),
{
    match v {
        DataItem::Dict(m) => {
            proof {
                lemma_dict(*m);
            }
            find_value(m, name)
        },
        DataItem::Array(a) => {
            proof {
                lemma_array(*a);
            }
            if position < a.len() {
                Some(&a[position])
            } else {
                None
            }
        },
        _ => None,
    }
}

/// Whether an item can be a record.
pub fn record_shaped(v: &DataItem, least: usize, most: usize) -> (shaped: bool)
    ensures
        shaped == is_record(v@, least as nat, most as nat),
{
    match v {
        DataItem::Dict(_) => true,
        DataItem::Array(a) => {
            proof {
                lemma_array(*a);
            }
            least <= a.len() && a.len() <= most
        },
        _ => false,
    }
}

/// A required text field of a record; the error tells what is wrong with it.
pub open spec fn text_field(v: Item, name: Seq<char>, position: nat) -> Result<
    Seq<char>,
    Seq<char>,
> {
    if repeats(v, name) {
        Err("duplicate field `"@ + name + "`"@)
    } else {
        match record_field(v, name, position) {
            None => Err("missing field `"@ + name + "`"@),
            Some(Item::Text(s)) => Ok(s),
            Some(_) => Err("invalid type for field `"@ + name + "`: expected a string"@),
        }
    }
}

/// Reads a required text field of a record.
pub fn read_text_field(v: &DataItem, name: &str, position: usize) -> (r: Result<String, String>)
    ensures
        match r {
            Ok(s) => text_field(v@, name@, position as nat) == Ok::<Seq<char>, Seq<char>>(s@),
            Err(e) => text_field(v@, name@, position as nat) == Err::<Seq<char>, Seq<char>>(e@),
        },
{
    if field_repeats(v, name) {
        return Err(join3("duplicate field `", name, "`"));
    }
    match find_field(v, name, position) {
        None => Err(join3("missing field `", name, "`")),
        Some(DataItem::Text(s)) => Ok(s.clone()),
        Some(_) => Err(join3("invalid type for field `", name, "`: expected a string")),
    }
}

/// An entry with another key does not affect what stands under `name`.
pub proof fn lemma_other_member(
    before: Seq<(Item, Item)>,
    extra: (Item, Item),
    behind: Seq<(Item, Item)>,
    name: Seq<char>,
)
    requires
        extra.0 != Item::Text(name),
    ensures
        member(before.push(extra) + behind, name) == member(before + behind, name),
        occurrences(before.push(extra) + behind, name) == occurrences(before + behind, name),
{
    lemma_other_member_found(before, extra, behind, name);
    lemma_other_member_counted(before, extra, behind, name);
}

proof fn lemma_other_member_found(
    before: Seq<(Item, Item)>,
    extra: (Item, Item),
    behind: Seq<(Item, Item)>,
    name: Seq<char>,
)
    requires
        extra.0 != Item::Text(name),
    ensures
        member(before.push(extra) + behind, name) == member(before + behind, name),
    decreases before.len(),
{
    let with = before.push(extra) + behind;
    let without = before + behind;
    if before.len() == 0 {
        assert(with.drop_first() =~= without);
    } else {
        let rest = before.drop_first();
        lemma_other_member_found(rest, extra, behind, name);
        assert(with.drop_first() =~= rest.push(extra) + behind);
        assert(without.drop_first() =~= rest + behind);
        assert(with[0] == without[0]);
    }
}

proof fn lemma_other_member_counted(
    before: Seq<(Item, Item)>,
    extra: (Item, Item),
    behind: Seq<(Item, Item)>,
    name: Seq<char>,
)
    requires
        extra.0 != Item::Text(name),
    ensures
        occurrences(before.push(extra) + behind, name) == occurrences(before + behind, name),
    decreases behind.len(),
{
    let with = before.push(extra) + behind;
    let without = before + behind;
    if behind.len() == 0 {
        assert(with.drop_last() =~= without);
    } else {
        let init = behind.drop_last();
        lemma_other_member_counted(before, extra, init, name);
        assert(with.drop_last() =~= before.push(extra) + init);
        assert(without.drop_last() =~= before + init);
        assert(with.last() == without.last());
    }
}

/// Whether a map has exactly one entry with the text `name` as its key, and `value` with it.
pub open spec fn only_entry(m: Seq<(Item, Item)>, name: Seq<char>, value: Item) -> bool {
    exists|i: int|
        0 <= i < m.len() && #[trigger] m[i] == (Item::Text(name), value) && forall|j: int|
            0 <= j < m.len() && j != i ==> (#[trigger] m[j]).0 != Item::Text(name)
}

/// Whether no entry of a map has the text `name` as its key.
pub open spec fn no_entry(m: Seq<(Item, Item)>, name: Seq<char>) -> bool {
    forall|j: int| 0 <= j < m.len() ==> (#[trigger] m[j]).0 != Item::Text(name)
}

proof fn lemma_member_at(m: Seq<(Item, Item)>, name: Seq<char>)
    ensures
        member(m, name) is None <==> no_entry(m, name),
        member(m, name) matches Some(value) ==> exists|i: int|
            0 <= i < m.len() && #[trigger] m[i] == (Item::Text(name), value) && forall|j: int|
                0 <= j < i ==> (#[trigger] m[j]).0 != Item::Text(name),
    decreases m.len(),
{
    if m.len() > 0 {
        let rest = m.drop_first();
        lemma_member_at(rest, name);
        if m[0].0 == Item::Text(name) {
            assert(m[0] == (Item::Text(name), m[0].1));
        } else {
            if no_entry(rest, name) {
                assert forall|j: int| 0 <= j < m.len() implies (#[trigger] m[j]).0 != Item::Text(
                    name,
                ) by {
                    if j > 0 {
                        assert(rest[j - 1] == m[j]);
                    }
                }
            }
            if no_entry(m, name) {
                assert forall|j: int| 0 <= j < rest.len() implies (#[trigger] rest[j]).0
                    != Item::Text(name) by {
                    assert(rest[j] == m[j + 1]);
                }
            }
            if let Some(value) = member(rest, name) {
                let i = choose|i: int|
                    0 <= i < rest.len() && #[trigger] rest[i] == (Item::Text(name), value)
                        && forall|j: int| 0 <= j < i ==> (#[trigger] rest[j]).0 != Item::Text(name);
                assert(m[i + 1] == (Item::Text(name), value));
                assert forall|j: int| 0 <= j < i + 1 implies (#[trigger] m[j]).0 != Item::Text(
                    name,
                ) by {
                    if j > 0 {
                        assert(rest[j - 1] == m[j]);
                    }
                }
            }
        }
    }
}

proof fn lemma_occurrences(m: Seq<(Item, Item)>, name: Seq<char>)
    ensures
        occurrences(m, name) == 0 <==> no_entry(m, name),
        occurrences(m, name) <= 1 <==> forall|i: int, j: int|
            0 <= i < j < m.len() && (#[trigger] m[i]).0 == Item::Text(name) ==> (
            #[trigger] m[j]).0 != Item::Text(name),
    decreases m.len(),
{
    if m.len() > 0 {
        let init = m.drop_last();
        let last = m.len() - 1;
        lemma_occurrences(init, name);
        assert(no_entry(m, name) <==> no_entry(init, name) && m[last].0 != Item::Text(name)) by {
            if no_entry(m, name) {
                assert forall|j: int| 0 <= j < init.len() implies (#[trigger] init[j]).0
                    != Item::Text(name) by {
                    assert(init[j] == m[j]);
                }
            }
            if no_entry(init, name) && m[last].0 != Item::Text(name) {
                assert forall|j: int| 0 <= j < m.len() implies (#[trigger] m[j]).0 != Item::Text(
                    name,
                ) by {
                    if j < last {
                        assert(init[j] == m[j]);
                    }
                }
            }
        }
        let once = |s: Seq<(Item, Item)>|
            forall|i: int, j: int|
                0 <= i < j < s.len() && (#[trigger] s[i]).0 == Item::Text(name) ==> (
                #[trigger] s[j]).0 != Item::Text(name);
        if once(m) {
            assert forall|i: int, j: int|
                0 <= i < j < init.len() && (#[trigger] init[i]).0 == Item::Text(name) implies (
            #[trigger] init[j]).0 != Item::Text(name) by {
                assert(init[i] == m[i] && init[j] == m[j]);
            }
            if m[last].0 == Item::Text(name) {
                assert forall|j: int| 0 <= j < init.len() implies (#[trigger] init[j]).0
                    != Item::Text(name) by {
                    assert(init[j] == m[j]);
                    if m[j].0 == Item::Text(name) {
                        assert(m[last].0 != Item::Text(name));
                    }
                }
                assert(no_entry(init, name));
            }
        }
        if occurrences(m, name) <= 1 {
            assert forall|i: int, j: int|
                0 <= i < j < m.len() && (#[trigger] m[i]).0 == Item::Text(name) implies (
            #[trigger] m[j]).0 != Item::Text(name) by {
                assert(init[i] == m[i]);
                if j < last {
                    assert(init[j] == m[j]);
                } else if m[last].0 == Item::Text(name) {
                    assert(occurrences(init, name) == 0);
                    assert(init[i].0 != Item::Text(name));
                }
            }
        }
    }
}

/// What stands under a name in a map: the value of its first entry, if there is one; and a
/// name is repeated exactly if two entries have it.
pub proof fn law_members(m: Seq<(Item, Item)>, name: Seq<char>, value: Item)
    ensures
        member(m, name) is None <==> no_entry(m, name),
        member(m, name) == Some(value) ==> exists|i: int|
            0 <= i < m.len() && #[trigger] m[i] == (Item::Text(name), value) && forall|j: int|
                0 <= j < i ==> (#[trigger] m[j]).0 != Item::Text(name),
        repeats(Item::Dict(m), name) <==> exists|i: int, j: int|
            0 <= i < j < m.len() && (#[trigger] m[i]).0 == Item::Text(name) && (#[trigger] m[j]).0
                == Item::Text(name),
        only_entry(m, name, value) <==> member(m, name) == Some(value) && !repeats(
            Item::Dict(m),
            name,
        ),
{
    lemma_member_at(m, name);
    lemma_occurrences(m, name);
    if only_entry(m, name, value) {
        let i = choose|i: int|
            0 <= i < m.len() && #[trigger] m[i] == (Item::Text(name), value) && forall|j: int|
                0 <= j < m.len() && j != i ==> (#[trigger] m[j]).0 != Item::Text(name);
        assert(m[i].0 == Item::Text(name));
        assert(!no_entry(m, name));
    }
    if member(m, name) == Some(value) && !repeats(Item::Dict(m), name) {
        let i = choose|i: int|
            0 <= i < m.len() && #[trigger] m[i] == (Item::Text(name), value) && forall|j: int|
                0 <= j < i ==> (#[trigger] m[j]).0 != Item::Text(name);
        assert forall|j: int| 0 <= j < m.len() && j != i implies (#[trigger] m[j]).0 != Item::Text(
            name,
        ) by {
            assert(m[i].0 == Item::Text(name));
        }
    }
}

/// A required text of a record is the one that stands once under its name, or at its place.
pub proof fn law_text_fields(v: Item, name: Seq<char>, position: nat, text: Seq<char>)
    ensures
        text_field(v, name, position) == Ok::<Seq<char>, Seq<char>>(text) <==> match v {
            Item::Dict(m) => only_entry(m, name, Item::Text(text)),
            Item::Array(a) => position < a.len() && a[position as int] == Item::Text(text),
            _ => false,
        },
{
    if let Item::Dict(m) = v {
        law_members(m, name, Item::Text(text));
        if let Some(value) = member(m, name) {
            law_members(m, name, value);
        }
    }
}

} // verus!
