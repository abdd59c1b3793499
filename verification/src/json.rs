//! Reading of JSON texts for the members that are known of them.
//!
//! A text is first parsed as a whole with nothing kept, so that its grammar is checked
//! and its values are not. It is then cut into members and elements, and only the names
//! of members and the values of those that are known are decoded. So a value that nobody
//! asks for may be one that cannot be represented: a number out of range, a lone
//! surrogate, bytes that are no UTF-8, a deep nesting.

use serde::de::IgnoredAny;

use vstd::prelude::*;
use vstd::slice::slice_subrange;

use crate::bytes::contents;
use crate::data::{
    decode_json, entries, fits, items, json_item, lemma_array, lemma_dict, lemma_fits,
    lemma_fits_more, DataItem, Item,
};
use crate::text::text_equal;

verus! {

/// What a JSON text is read as.
#[derive(Debug, Clone, Copy, PartialEq, Eq, Structural)]
pub enum Shape {
    /// Any value, of which all is kept.
    Whole,
    /// Client data.
    ClientData,
    /// The header of a token.
    Header,
    /// The payload of a metadata token.
    Payload,
    /// The entries of a payload.
    Entries,
    /// One of them.
    Entry,
    /// The status reports of an entry.
    Reports,
    /// One of them.
    Report,
}

/// What the value of a known member is read as.
pub open spec fn member_shape(shape: Shape, name: Seq<char>) -> Option<Shape> {
    match shape {
        Shape::ClientData => if name == "type"@ || name == "challenge"@ || name == "origin"@ || name
            == "crossOrigin"@ {
            Some(Shape::Whole)
        } else {
            None
        },
        Shape::Header => if name == "alg"@ || name == "x5c"@ {
            Some(Shape::Whole)
        } else {
            None
        },
        Shape::Payload => if name == "entries"@ {
            Some(Shape::Entries)
        } else {
            None
        },
        Shape::Entry => if name == "aaguid"@ {
            Some(Shape::Whole)
        } else if name == "statusReports"@ {
            Some(Shape::Reports)
        } else {
            None
        },
        Shape::Report => if name == "status"@ {
            Some(Shape::Whole)
        } else {
            None
        },
        _ => None,
    }
}

/// What an element of an array is read as: records may be written by position.
pub open spec fn element_shape(shape: Shape, position: nat) -> Shape {
    match shape {
        Shape::Entries => Shape::Entry,
        Shape::Reports => Shape::Report,
        Shape::Payload => if position == 0 {
            Shape::Entries
        } else {
            Shape::Whole
        },
        Shape::Entry => if position == 1 {
            Shape::Reports
        } else {
            Shape::Whole
        },
        _ => Shape::Whole,
    }
}

/// How deep the known part of a shape is.
pub open spec fn rank(shape: Shape) -> nat {
    match shape {
        Shape::Whole => 0,
        Shape::ClientData => 1,
        Shape::Header => 1,
        Shape::Report => 1,
        Shape::Reports => 2,
        Shape::Entry => 3,
        Shape::Entries => 4,
        Shape::Payload => 5,
    }
}

fn known_member(shape: Shape, name: &str) -> (known: Option<Shape>)
    ensures
        known == member_shape(shape, name@),
{
    match shape {
        Shape::ClientData => if text_equal(name, "type") || text_equal(name, "challenge")
            || text_equal(name, "origin") || text_equal(name, "crossOrigin") {
            Some(Shape::Whole)
        } else {
            None
        },
        Shape::Header => if text_equal(name, "alg") || text_equal(name, "x5c") {
            Some(Shape::Whole)
        } else {
            None
        },
        Shape::Payload => if text_equal(name, "entries") {
            Some(Shape::Entries)
        } else {
            None
        },
        Shape::Entry => if text_equal(name, "aaguid") {
            Some(Shape::Whole)
        } else if text_equal(name, "statusReports") {
            Some(Shape::Reports)
        } else {
            None
        },
        Shape::Report => if text_equal(name, "status") {
            Some(Shape::Whole)
        } else {
            None
        },
        _ => None,
    }
}

fn known_element(shape: Shape, position: usize) -> (known: Shape)
    ensures
        known == element_shape(shape, position as nat),
{
    match shape {
        Shape::Entries => Shape::Entry,
        Shape::Reports => Shape::Report,
        Shape::Payload => if position == 0 {
            Shape::Entries
        } else {
            Shape::Whole
        },
        Shape::Entry => if position == 1 {
            Shape::Reports
        } else {
            Shape::Whole
        },
        _ => Shape::Whole,
    }
}

/// Where in a JSON text a place is: how many brackets are open, whether a string is, and
/// whether a backslash stands just before.
pub ghost struct Nesting {
    pub depth: int,
    pub quoted: bool,
    pub escaped: bool,
}

/// The place behind a byte.
pub open spec fn behind(at: Nesting, byte: u8) -> Nesting {
    if at.quoted {
        if at.escaped {
            Nesting { escaped: false, ..at }
        } else if byte == 0x5C {
            Nesting { escaped: true, ..at }
        } else if byte == 0x22 {
            Nesting { quoted: false, ..at }
        } else {
            at
        }
    } else if byte == 0x22 {
        Nesting { quoted: true, ..at }
    } else if byte == 0x7B || byte == 0x5B {
        Nesting { depth: at.depth + 1, ..at }
    } else if byte == 0x7D || byte == 0x5D {
        Nesting { depth: at.depth - 1, ..at }
    } else {
        at
    }
}

/// The place behind a text.
pub open spec fn nesting(text: Seq<u8>) -> Nesting
    decreases text.len(),
{
    if text.len() == 0 {
        Nesting { depth: 0, quoted: false, escaped: false }
    } else {
        behind(nesting(text.drop_last()), text.last())
    }
}

/// The parts of a text between the separators that stand in no string and no brackets.
pub open spec fn cut(text: Seq<u8>, separator: u8) -> Seq<Seq<u8>>
    decreases text.len(),
{
    if text.len() == 0 {
        seq![Seq::empty()]
    } else {
        let earlier = cut(text.drop_last(), separator);
        let place = nesting(text.drop_last());
        if text.last() == separator && place.depth == 0 && !place.quoted {
            earlier.push(Seq::empty())
        } else {
            earlier.drop_last().push(earlier.last().push(text.last()))
        }
    }
}

/// Cuts a text at the separators that stand in no string and no brackets.
pub fn cut_text(text: &[u8], separator: u8) -> (parts: Vec<Vec<u8>>)
    ensures
        contents(parts@) == cut(text@, separator),
        forall|i: int| 0 <= i < parts@.len() ==> (#[trigger] parts@[i])@.len() <= text@.len(),
{
    let mut parts: Vec<Vec<u8>> = Vec::new();
    let mut current: Vec<u8> = Vec::new();
    let mut depth: i128 = 0;
    let mut quoted = false;
    let mut escaped = false;
    let mut i: usize = 0;
    assert(contents(parts@).push(current@) =~= cut(text@.take(0), separator));
    while i < text.len()
        invariant
            i <= text@.len(),
            -i <= depth <= i,
            nesting(text@.take(i as int)) == (Nesting { depth: depth as int, quoted, escaped }),
            current@.len() <= i,
            forall|k: int| 0 <= k < parts@.len() ==> (#[trigger] parts@[k])@.len() <= text@.len(),
            contents(parts@).push(current@) == cut(text@.take(i as int), separator),
        decreases text.len() - i,
    {
        let byte: u8 = text[i];
        let ghost longer = text@.take(i + 1);
        let ghost earlier = contents(parts@).push(current@);
        assert(longer.drop_last() =~= text@.take(i as int));
        assert(longer.last() == byte);
        if byte == separator && depth == 0 && !quoted {
            let mut fresh: Vec<u8> = Vec::new();
            std::mem::swap(&mut fresh, &mut current);
            let ghost before = parts@;
            parts.push(fresh);
            assert(contents(parts@) =~= contents(before).push(fresh@));
            assert(contents(parts@) =~= earlier);
        } else {
            current.push(byte);
            assert(contents(parts@).push(current@) =~= earlier.drop_last().push(
                earlier.last().push(byte),
            ));
        }
        if quoted {
            if escaped {
                escaped = false;
            } else if byte == 0x5C {
                escaped = true;
            } else if byte == 0x22 {
                quoted = false;
            }
        } else if byte == 0x22 {
            quoted = true;
        } else if byte == 0x7B || byte == 0x5B {
            depth += 1;
        } else if byte == 0x7D || byte == 0x5D {
            depth -= 1;
        }
        i += 1;
    }
    let ghost before = parts@;
    parts.push(current);
    assert(text@.take(text@.len() as int) =~= text@);
    assert(contents(parts@) =~= contents(before).push(current@));
    parts
}

/// Whether a byte is white space between tokens.
pub open spec fn blank(byte: u8) -> bool {
    byte == 0x20 || byte == 0x09 || byte == 0x0A || byte == 0x0D
}

/// A text without the white space around it.
pub open spec fn trimmed(text: Seq<u8>) -> Seq<u8>
    decreases text.len(),
{
    if text.len() == 0 {
        text
    } else if blank(text[0]) {
        trimmed(text.drop_first())
    } else if blank(text.last()) {
        trimmed(text.drop_last())
    } else {
        text
    }
}

fn is_blank(byte: u8) -> (yes: bool)
    ensures
        yes == blank(byte),
{
    byte == 0x20 || byte == 0x09 || byte == 0x0A || byte == 0x0D
}

/// Leaves out the white space around a text.
pub fn trim_text(text: &[u8]) -> (inner: &[u8])
    ensures
        inner@ == trimmed(text@),
        inner@.len() <= text@.len(),
{
    let mut from: usize = 0;
    let mut to: usize = text.len();
    assert(text@.subrange(0, text@.len() as int) =~= text@);
    while from < to && is_blank(text[from])
        invariant
            from <= to <= text@.len(),
            trimmed(text@.subrange(from as int, to as int)) == trimmed(text@),
        decreases to - from,
    {
        assert(text@.subrange(from as int, to as int).drop_first() =~= text@.subrange(
            from + 1,
            to as int,
        ));
        from += 1;
    }
    while from < to && is_blank(text[to - 1])
        invariant
            from <= to <= text@.len(),
            from < to ==> !blank(text@[from as int]),
            trimmed(text@.subrange(from as int, to as int)) == trimmed(text@),
        decreases to - from,
    {
        assert(text@.subrange(from as int, to as int).drop_last() =~= text@.subrange(
            from as int,
            to - 1,
        ));
        to -= 1;
    }
    slice_subrange(text, from, to)
}

/// What stands between the brackets of an object or an array.
pub open spec fn enclosed(text: Seq<u8>, open: u8, close: u8) -> Option<Seq<u8>> {
    let value = trimmed(text);
    if value.len() >= 2 && value[0] == open && value.last() == close {
        Some(value.subrange(1, value.len() - 1))
    } else {
        None
    }
}

/// The members or the elements that stand between brackets.
pub open spec fn listed(inner: Seq<u8>) -> Seq<Seq<u8>> {
    if trimmed(inner).len() == 0 {
        Seq::empty()
    } else {
        cut(inner, 0x2C)
    }
}

fn enclosed_list(text: &[u8], open: u8, close: u8) -> (r: Option<Vec<Vec<u8>>>)
    ensures
        match r {
            Some(parts) => enclosed(text@, open, close) matches Some(inner) && contents(parts@)
                == listed(inner) && forall|i: int|
                0 <= i < parts@.len() ==> (#[trigger] parts@[i])@.len() <= text@.len(),
            None => enclosed(text@, open, close) is None,
        },
{
    let value = trim_text(text);
    if value.len() < 2 || value[0] != open || value[value.len() - 1] != close {
        return None;
    }
    let inner = slice_subrange(value, 1, value.len() - 1);
    if trim_text(inner).is_empty() {
        let none: Vec<Vec<u8>> = Vec::new();
        assert(contents(none@) =~= Seq::<Seq<u8>>::empty());
        return Some(none);
    }
    Some(cut_text(inner, 0x2C))
}

/// What a JSON text holds of a shape. Of an object these are its known members, in order;
/// the values of the others are left unread.
pub open spec fn json_part(text: Seq<u8>, shape: Shape) -> Result<Item, Seq<char>>
    decreases rank(shape), 2nat, 0nat,
{
    if shape is Whole {
        json_item(text)
    } else {
        match (enclosed(text, 0x7B, 0x7D), enclosed(text, 0x5B, 0x5D)) {
            (Some(inner), _) => match members_part(listed(inner), shape) {
                Ok(m) => Ok(Item::Dict(m)),
                Err(e) => Err(e),
            },
            (None, Some(inner)) => match elements_part(listed(inner), shape) {
                Ok(a) => Ok(Item::Array(a)),
                Err(e) => Err(e),
            },
            (None, None) => json_item(text),
        }
    }
}

/// A member of an object, by its text; none where it is not known.
pub open spec fn member_part(member: Seq<u8>, shape: Shape) -> Result<
    Option<(Item, Item)>,
    Seq<char>,
>
    decreases rank(shape), 0nat, 0nat,
{
    let pieces = cut(member, 0x3A);
    match json_item(pieces[0]) {
        Err(e) => Err(e),
        Ok(Item::Text(name)) => match member_shape(shape, name) {
            None => Ok(None),
            Some(known) => if pieces.len() != 2 {
                Err("expected a name and a value"@)
            } else {
                match json_part(pieces[1], known) {
                    Ok(v) => Ok(Some((Item::Text(name), v))),
                    Err(e) => Err(e),
                }
            },
        },
        Ok(_) => Err("key must be a string"@),
    }
}

/// The known ones among the members of an object, by their texts.
pub open spec fn members_part(members: Seq<Seq<u8>>, shape: Shape) -> Result<
    Seq<(Item, Item)>,
    Seq<char>,
>
    decreases rank(shape), 1nat, members.len(),
{
    if members.len() == 0 {
        Ok(Seq::empty())
    } else {
        match (members_part(members.drop_last(), shape), member_part(members.last(), shape)) {
            (Err(e), _) => Err(e),
            (Ok(_), Err(e)) => Err(e),
            (Ok(earlier), Ok(None)) => Ok(earlier),
            (Ok(earlier), Ok(Some(known))) => Ok(earlier.push(known)),
        }
    }
}

/// The elements of an array, by their texts.
pub open spec fn elements_part(elements: Seq<Seq<u8>>, shape: Shape) -> Result<
    Seq<Item>,
    Seq<char>,
>
    decreases rank(shape), 1nat, elements.len(),
{
    if shape is Whole || elements.len() == 0 {
        Ok(Seq::empty())
    } else {
        match elements_part(elements.drop_last(), shape) {
            Err(e) => Err(e),
            Ok(earlier) => match json_part(
                elements.last(),
                element_shape(shape, (elements.len() - 1) as nat),
            ) {
                Ok(v) => Ok(earlier.push(v)),
                Err(e) => Err(e),
            },
        }
    }
}

/// The message of the parser where a text is no JSON value.
pub uninterp spec fn json_fault(bytes: Seq<u8>) -> Option<Seq<char>>;

/// `serde_json::from_slice` into `serde::de::IgnoredAny`: parses a whole JSON text and
/// keeps nothing of it. What it returns depends on the bytes alone.
#[verifier::external_body]
fn check_json(bytes: &[u8]) -> (r: Option<String>)
    ensures
        match r {
            Some(message) => json_fault(bytes@) == Some(message@),
            None => json_fault(bytes@) is None,
        },
{
    match serde_json::from_slice::<IgnoredAny>(bytes) {
        Ok(_) => None,
        Err(e) => Some(format!("{e}")),
    }
}

/// The known part of a JSON text, or what is wrong with the text.
pub open spec fn json_value(text: Seq<u8>, shape: Shape) -> Result<Item, Seq<char>> {
    match json_fault(text) {
        Some(message) => Err(message),
        None => json_part(text, shape),
    }
}

/// Reads the known part of a JSON text.
pub fn decode_json_as(text: &[u8], shape: Shape) -> (r: Result<DataItem, String>)
    ensures
        match r {
            Ok(v) => json_value(text@, shape) == Ok::<Item, Seq<char>>(v@) && fits(
                v@,
                text@.len(),
            ),
            Err(message) => json_value(text@, shape) == Err::<Item, Seq<char>>(message@),
        },
{
    match check_json(text) {
        Some(message) => Err(message),
        None => read_part(text, shape),
    }
}

fn read_part(text: &[u8], shape: Shape) -> (r: Result<DataItem, String>)
    ensures
        match r {
            Ok(v) => json_part(text@, shape) == Ok::<Item, Seq<char>>(v@) && fits(v@, text@.len()),
            Err(message) => json_part(text@, shape) == Err::<Item, Seq<char>>(message@),
        },
    decreases rank(shape), 2nat,
{
    if let Shape::Whole = shape {
        return decode_json(text);
    }
    match enclosed_list(text, 0x7B, 0x7D) {
        Some(members) => match read_members(&members, shape, Ghost(text@.len())) {
            Ok(m) => {
                proof {
                    lemma_dict(m);
                }
                Ok(DataItem::Dict(m))
            },
            Err(e) => Err(e),
        },
        None => match enclosed_list(text, 0x5B, 0x5D) {
            Some(elements) => match read_elements(&elements, shape, Ghost(text@.len())) {
                Ok(a) => {
                    proof {
                        lemma_array(a);
                    }
                    Ok(DataItem::Array(a))
                },
                Err(e) => Err(e),
            },
            None => decode_json(text),
        },
    }
}

proof fn lemma_members_failure_stays(members: Seq<Seq<u8>>, shape: Shape, n: int)
    requires
        0 <= n <= members.len(),
        members_part(members.take(n), shape) is Err,
    ensures
        members_part(members, shape) == members_part(members.take(n), shape),
    decreases members.len(),
{
    if n < members.len() {
        assert(members.drop_last().take(n) =~= members.take(n));
        lemma_members_failure_stays(members.drop_last(), shape, n);
    } else {
        assert(members.take(n) =~= members);
    }
}

proof fn lemma_elements_failure_stays(elements: Seq<Seq<u8>>, shape: Shape, n: int)
    requires
        0 <= n <= elements.len(),
        elements_part(elements.take(n), shape) is Err,
    ensures
        elements_part(elements, shape) == elements_part(elements.take(n), shape),
    decreases elements.len(),
{
    if n < elements.len() {
        assert(elements.drop_last().take(n) =~= elements.take(n));
        lemma_elements_failure_stays(elements.drop_last(), shape, n);
    } else {
        assert(elements.take(n) =~= elements);
    }
}

fn read_member(member: &[u8], shape: Shape) -> (r: Result<Option<(DataItem, DataItem)>, String>)
    ensures
        match r {
            Ok(None) => member_part(member@, shape) == Ok::<Option<(Item, Item)>, Seq<char>>(None),
            Ok(Some((name, v))) => member_part(member@, shape) == Ok::<
                Option<(Item, Item)>,
                Seq<char>,
            >(Some((name@, v@))) && fits(name@, member@.len()) && fits(v@, member@.len()),
            Err(e) => member_part(member@, shape) == Err::<Option<(Item, Item)>, Seq<char>>(e@),
        },
    decreases rank(shape), 0nat,
{
    let pieces = cut_text(member, 0x3A);
    proof {
        lemma_cut_is_not_empty(member@, 0x3A);
        assert(contents(pieces@)[0] == pieces@[0]@);
    }
    let name = match decode_json(pieces[0].as_slice()) {
        Ok(name) => name,
        Err(e) => return Err(e),
    };
    let known = match &name {
        DataItem::Text(text) => known_member(shape, text.as_str()),
        _ => return Err("key must be a string".to_string()),
    };
    let known = match known {
        Some(known) => known,
        None => return Ok(None),
    };
    if pieces.len() != 2 {
        return Err("expected a name and a value".to_string());
    }
    assert(contents(pieces@)[1] == pieces@[1]@);
    match read_part(pieces[1].as_slice(), known) {
        Ok(v) => {
            proof {
                lemma_fits_more(name@, pieces@[0]@.len(), member@.len());
                lemma_fits_more(v@, pieces@[1]@.len(), member@.len());
            }
            Ok(Some((name, v)))
        },
        Err(e) => Err(e),
    }
}

proof fn lemma_cut_is_not_empty(text: Seq<u8>, separator: u8)
    ensures
        cut(text, separator).len() >= 1,
    decreases text.len(),
{
    if text.len() > 0 {
        lemma_cut_is_not_empty(text.drop_last(), separator);
    }
}

fn read_members(members: &Vec<Vec<u8>>, shape: Shape, Ghost(n): Ghost<nat>) -> (r: Result<
    Vec<(DataItem, DataItem)>,
    String,
>)
    requires
        forall|i: int| 0 <= i < members@.len() ==> (#[trigger] members@[i])@.len() <= n,
    ensures
        match r {
            Ok(m) => members_part(contents(members@), shape) == Ok::<Seq<(Item, Item)>, Seq<char>>(
                entries(m@),
            ) && fits(Item::Dict(entries(m@)), n),
            Err(e) => members_part(contents(members@), shape) == Err::<
                Seq<(Item, Item)>,
                Seq<char>,
            >(e@),
        },
    decreases rank(shape), 1nat,
{
    let ghost all = contents(members@);
    let mut known: Vec<(DataItem, DataItem)> = Vec::new();
    let mut i: usize = 0;
    assert(entries(known@) =~= Seq::<(Item, Item)>::empty());
    while i < members.len()
        invariant
            i <= members@.len(),
            all == contents(members@),
            forall|k: int| 0 <= k < members@.len() ==> (#[trigger] members@[k])@.len() <= n,
            members_part(all.take(i as int), shape) == Ok::<Seq<(Item, Item)>, Seq<char>>(
                entries(known@),
            ),
            fits(Item::Dict(entries(known@)), n),
        decreases members.len() - i,
    {
        let ghost longer = all.take(i + 1);
        assert(longer.drop_last() =~= all.take(i as int));
        assert(longer.last() == members@[i as int]@);
        match read_member(members[i].as_slice(), shape) {
            Ok(Some((name, v))) => {
                let ghost before = known@;
                proof {
                    lemma_fits(Item::Dict(entries(before)), n);
                    lemma_fits_more(name@, members@[i as int]@.len(), n);
                    lemma_fits_more(v@, members@[i as int]@.len(), n);
                }
                known.push((name, v));
                assert(entries(known@) =~= entries(before).push((name@, v@)));
            },
            Ok(None) => {},
            Err(e) => {
                proof {
                    lemma_members_failure_stays(all, shape, i + 1);
                }
                return Err(e);
            },
        }
        i += 1;
    }
    assert(all.take(all.len() as int) =~= all);
    Ok(known)
}

fn read_elements(elements: &Vec<Vec<u8>>, shape: Shape, Ghost(n): Ghost<nat>) -> (r: Result<
    Vec<DataItem>,
    String,
>)
    requires
        !(shape is Whole),
        forall|i: int| 0 <= i < elements@.len() ==> (#[trigger] elements@[i])@.len() <= n,
    ensures
        match r {
            Ok(a) => elements_part(contents(elements@), shape) == Ok::<Seq<Item>, Seq<char>>(
                items(a@),
            ) && fits(Item::Array(items(a@)), n),
            Err(e) => elements_part(contents(elements@), shape) == Err::<Seq<Item>, Seq<char>>(e@),
        },
    decreases rank(shape), 1nat,
{
    let ghost all = contents(elements@);
    let mut read: Vec<DataItem> = Vec::new();
    let mut i: usize = 0;
    assert(items(read@) =~= Seq::<Item>::empty());
    while i < elements.len()
        invariant
            i <= elements@.len(),
            !(shape is Whole),
            all == contents(elements@),
            forall|k: int| 0 <= k < elements@.len() ==> (#[trigger] elements@[k])@.len() <= n,
            elements_part(all.take(i as int), shape) == Ok::<Seq<Item>, Seq<char>>(items(read@)),
            fits(Item::Array(items(read@)), n),
        decreases elements.len() - i,
    {
        let ghost longer = all.take(i + 1);
        assert(longer.drop_last() =~= all.take(i as int));
        assert(longer.last() == elements@[i as int]@);
        match read_part(elements[i].as_slice(), known_element(shape, i)) {
            Ok(v) => {
                let ghost before = read@;
                proof {
                    lemma_fits(Item::Array(items(before)), n);
                    lemma_fits_more(v@, elements@[i as int]@.len(), n);
                }
                read.push(v);
                assert(items(read@) =~= items(before).push(v@));
            },
            Err(e) => {
                proof {
                    lemma_elements_failure_stays(all, shape, i + 1);
                }
                return Err(e);
            },
        }
        i += 1;
    }
    assert(all.take(all.len() as int) =~= all);
    Ok(read)
}

/// A member whose name is not known is skipped, wherever it stands in an object and
/// whatever its value is written as: an object text reads as it does without it.
pub proof fn law_unknown_members_are_skipped(
    with: Seq<u8>,
    without: Seq<u8>,
    before: Seq<Seq<u8>>,
    extra: Seq<u8>,
    after: Seq<Seq<u8>>,
    shape: Shape,
)
    requires
        !(shape is Whole),
        json_fault(with) is None,
        json_fault(without) is None,
        enclosed(with, 0x7B, 0x7D) matches Some(inner) && listed(inner) == before.push(extra)
            + after,
        enclosed(without, 0x7B, 0x7D) matches Some(inner) && listed(inner) == before + after,
        json_item(cut(extra, 0x3A)[0]) matches Ok(Item::Text(name)) && member_shape(
            shape,
            name,
        ) is None,
    ensures
        json_value(with, shape) == json_value(without, shape),
{
    lemma_skipped_member(before, extra, after, shape);
}

proof fn lemma_skipped_member(
    before: Seq<Seq<u8>>,
    extra: Seq<u8>,
    after: Seq<Seq<u8>>,
    shape: Shape,
)
    requires
        member_part(extra, shape) == Ok::<Option<(Item, Item)>, Seq<char>>(None),
    ensures
        members_part(before.push(extra) + after, shape) == members_part(before + after, shape),
    decreases after.len(),
{
    let with = before.push(extra) + after;
    let without = before + after;
    if after.len() == 0 {
        assert(with.drop_last() =~= before);
        assert(without =~= before);
    } else {
        lemma_skipped_member(before, extra, after.drop_last(), shape);
        assert(with.drop_last() =~= before.push(extra) + after.drop_last());
        assert(without.drop_last() =~= before + after.drop_last());
        assert(with.last() == without.last());
    }
}

/// The members that are known: of client data, of a token header, of a metadata payload, its
/// entries and their reports. All but the two lists are read whole.
pub proof fn law_known_members(name: Seq<char>)
    ensures
        member_shape(Shape::ClientData, name) == if name == "type"@ || name == "challenge"@ || name
            == "origin"@ || name == "crossOrigin"@ {
            Some(Shape::Whole)
        } else {
            None
        },
        member_shape(Shape::Header, name) == if name == "alg"@ || name == "x5c"@ {
            Some(Shape::Whole)
        } else {
            None
        },
        member_shape(Shape::Payload, name) is Some <==> name == "entries"@,
        member_shape(Shape::Payload, "entries"@) == Some(Shape::Entries),
        member_shape(Shape::Entry, name) is Some <==> name == "aaguid"@ || name
            == "statusReports"@,
        member_shape(Shape::Entry, "aaguid"@) == Some(Shape::Whole),
        member_shape(Shape::Entry, "statusReports"@) == Some(Shape::Reports),
        member_shape(Shape::Report, name) is Some <==> name == "status"@,
        member_shape(Shape::Report, "status"@) == Some(Shape::Whole),
        forall|position: nat| #[trigger] element_shape(Shape::Entries, position) == Shape::Entry,
        forall|position: nat| #[trigger] element_shape(Shape::Reports, position) == Shape::Report,
        element_shape(Shape::Payload, 0) == Shape::Entries,
        element_shape(Shape::Entry, 0) == Shape::Whole,
        element_shape(Shape::Entry, 1) == Shape::Reports,
        element_shape(Shape::Report, 0) == Shape::Whole,
        forall|position: nat| #[trigger] element_shape(Shape::ClientData, position) == Shape::Whole,
        forall|position: nat| #[trigger] element_shape(Shape::Header, position) == Shape::Whole,
{
    reveal_strlit("aaguid");
    reveal_strlit("statusReports");
    assert("aaguid"@.len() == 6 && "statusReports"@.len() == 13);
}

/// A text that is no JSON is refused with the parser's message. Of one that is, a value that is
/// read whole, and one that is neither an object nor an array, is what the parser makes of it;
/// an object is its members and an array its elements.
pub proof fn law_json_values(text: Seq<u8>, shape: Shape)
    ensures
        json_fault(text) matches Some(message) ==> json_value(text, shape) == Err::<
            Item,
            Seq<char>,
        >(message),
        json_fault(text) is None && (shape is Whole || (enclosed(text, 0x7B, 0x7D) is None
            && enclosed(text, 0x5B, 0x5D) is None)) ==> json_value(text, shape) == json_item(text),
        json_fault(text) is None && !(shape is Whole) ==> (enclosed(
            text,
            0x7B,
            0x7D,
        ) matches Some(inner) ==> match members_part(listed(inner), shape) {
            Ok(m) => json_value(text, shape) == Ok::<Item, Seq<char>>(Item::Dict(m)),
            Err(e) => json_value(text, shape) == Err::<Item, Seq<char>>(e),
        }),
        json_fault(text) is None && !(shape is Whole) && enclosed(text, 0x7B, 0x7D) is None ==> (
        enclosed(text, 0x5B, 0x5D) matches Some(inner) ==> match elements_part(
            listed(inner),
            shape,
        ) {
            Ok(a) => json_value(text, shape) == Ok::<Item, Seq<char>>(Item::Array(a)),
            Err(e) => json_value(text, shape) == Err::<Item, Seq<char>>(e),
        }),
{
}

/// The members of an object are read one by one, in order: a further one that is known adds its
/// name and value, one that is not known adds nothing, and one whose name or known value
/// cannot be read makes the object unreadable.
pub proof fn law_members_are_read_in_order(
    members: Seq<Seq<u8>>,
    name: Seq<u8>,
    value: Seq<u8>,
    shape: Shape,
)
    requires
        cut(name.push(0x3A) + value, 0x3A) == seq![name, value],
    ensures
        members_part(Seq::empty(), shape) == Ok::<Seq<(Item, Item)>, Seq<char>>(Seq::empty()),
        members_part(members, shape) is Err ==> members_part(
            members.push(name.push(0x3A) + value),
            shape,
        ) == members_part(members, shape),
        members_part(members, shape) matches Ok(m) ==> {
            let next = members_part(members.push(name.push(0x3A) + value), shape);
            match json_item(name) {
                Ok(Item::Text(key)) => match member_shape(shape, key) {
                    None => next == Ok::<Seq<(Item, Item)>, Seq<char>>(m),
                    Some(known) => match json_part(value, known) {
                        Ok(v) => next == Ok::<Seq<(Item, Item)>, Seq<char>>(
                            m.push((Item::Text(key), v)),
                        ),
                        Err(e) => next is Err,
                    },
                },
                _ => next is Err,
            }
        },
{
    let member = name.push(0x3A) + value;
    let longer = members.push(member);
    assert(longer.drop_last() =~= members);
    assert(longer.last() == member);
    let pieces = cut(member, 0x3A);
    assert(pieces[0] == name && pieces[1] == value);
    let read = member_part(member, shape);
    assert(read == match json_item(name) {
        Err(e) => Err(e),
        Ok(Item::Text(key)) => match member_shape(shape, key) {
            None => Ok(None),
            Some(known) => match json_part(value, known) {
                Ok(v) => Ok(Some((Item::Text(key), v))),
                Err(e) => Err(e),
            },
        },
        Ok(_) => Err("key must be a string"@),
    });
}

/// The elements of an array are read one by one, in order, each by its place.
pub proof fn law_elements_are_read_in_order(elements: Seq<Seq<u8>>, more: Seq<u8>, shape: Shape)
    requires
        !(shape is Whole),
    ensures
        elements_part(Seq::empty(), shape) == Ok::<Seq<Item>, Seq<char>>(Seq::empty()),
        elements_part(elements, shape) is Err ==> elements_part(elements.push(more), shape)
            == elements_part(elements, shape),
        elements_part(elements, shape) matches Ok(a) ==> match json_part(
            more,
            element_shape(shape, elements.len()),
        ) {
            Ok(v) => elements_part(elements.push(more), shape) == Ok::<Seq<Item>, Seq<char>>(
                a.push(v),
            ),
            Err(e) => elements_part(elements.push(more), shape) is Err,
        },
{
    assert(elements.push(more).drop_last() =~= elements);
}

/// Whether a place is outside all strings and brackets.
pub open spec fn outermost(at: Nesting) -> bool {
    at.depth == 0 && !at.quoted && !at.escaped
}

/// Whether a byte is none of those that open or close a string or brackets, nor a backslash.
pub open spec fn plain(byte: u8) -> bool {
    byte != 0x22 && byte != 0x5C && byte != 0x7B && byte != 0x7D && byte != 0x5B && byte != 0x5D
}

/// Cutting puts a cut at a separator that stands outside strings and brackets: what is before
/// it and what is behind it are cut on their own.
pub proof fn law_cut_at_separators(before: Seq<u8>, separator: u8, after: Seq<u8>)
    requires
        plain(separator),
        outermost(nesting(before)),
    ensures
        cut(before.push(separator) + after, separator) == cut(before, separator) + cut(
            after,
            separator,
        ),
        nesting(before.push(separator) + after) == nesting(after),
    decreases after.len(),
{
    let whole = before.push(separator) + after;
    if after.len() == 0 {
        assert(whole =~= before.push(separator));
        assert(whole.drop_last() =~= before);
        assert(cut(whole, separator) =~= cut(before, separator) + cut(after, separator));
    } else {
        let init = after.drop_last();
        law_cut_at_separators(before, separator, init);
        assert(whole.drop_last() =~= before.push(separator) + init);
        assert(whole.last() == after.last());
        lemma_cut_is_not_empty(init, separator);
        assert(cut(whole, separator) =~= cut(before, separator) + cut(after, separator));
    }
}

/// There is no cut inside a string, whatever it holds besides quotes and backslashes.
pub proof fn law_strings_are_not_cut(inner: Seq<u8>, separator: u8)
    requires
        plain(separator),
        forall|i: int| 0 <= i < inner.len() ==> inner[i] != 0x22 && inner[i] != 0x5C,
    ensures
        ({
            let text = seq![0x22u8] + inner + seq![0x22u8];
            cut(text, separator) == seq![text] && outermost(nesting(text))
        }),
{
    let text = seq![0x22u8] + inner + seq![0x22u8];
    let open = seq![0x22u8] + inner;
    lemma_string_stays_open(inner, separator);
    assert(text.drop_last() =~= open);
    assert(open.push(0x22u8) =~= text);
    assert(cut(open, separator).drop_last() =~= Seq::<Seq<u8>>::empty());
    assert(cut(text, separator) =~= seq![text]);
}

proof fn lemma_string_stays_open(inner: Seq<u8>, separator: u8)
    requires
        plain(separator),
        forall|i: int| 0 <= i < inner.len() ==> inner[i] != 0x22 && inner[i] != 0x5C,
    ensures
        nesting(seq![0x22u8] + inner) == (Nesting { depth: 0, quoted: true, escaped: false }),
        cut(seq![0x22u8] + inner, separator) == seq![seq![0x22u8] + inner],
    decreases inner.len(),
{
    let text = seq![0x22u8] + inner;
    if inner.len() == 0 {
        assert(text =~= seq![0x22u8]);
        assert(text.drop_last() =~= Seq::<u8>::empty());
        assert(nesting(text.drop_last()) == (Nesting { depth: 0, quoted: false, escaped: false }));
        assert(cut(text.drop_last(), separator) =~= seq![Seq::<u8>::empty()]);
        assert(cut(text, separator) =~= seq![text]) by {
            assert(Seq::<u8>::empty().push(0x22u8) =~= text);
        }
    } else {
        let init = inner.drop_last();
        assert forall|i: int| 0 <= i < init.len() implies init[i] != 0x22 && init[i] != 0x5C by {
            assert(init[i] == inner[i]);
        }
        lemma_string_stays_open(init, separator);
        assert(text.drop_last() =~= seq![0x22u8] + init);
        assert(text.last() == inner.last());
        assert((seq![0x22u8] + init).push(inner.last()) =~= text);
        assert(cut(text, separator) =~= seq![text]);
    }
}

/// An escaped quote does not end a string.
pub proof fn law_escapes_stay_in_strings(before: Seq<u8>, escaped: u8)
    requires
        nesting(before).quoted,
        !nesting(before).escaped,
    ensures
        nesting(before.push(0x5C).push(escaped)) == nesting(before),
{
    let slash = before.push(0x5C);
    assert(slash.drop_last() =~= before);
    assert(slash.push(escaped).drop_last() =~= slash);
    assert(nesting(slash) == (Nesting { escaped: true, ..nesting(before) }));
}

/// Brackets nest: an opening one goes a level down and a closing one back up.
pub proof fn law_brackets_nest(before: Seq<u8>, byte: u8)
    requires
        !nesting(before).quoted,
    ensures
        byte == 0x7B || byte == 0x5B ==> nesting(before.push(byte)) == (Nesting {
            depth: nesting(before).depth + 1,
            ..nesting(before)
        }),
        byte == 0x7D || byte == 0x5D ==> nesting(before.push(byte)) == (Nesting {
            depth: nesting(before).depth - 1,
            ..nesting(before)
        }),
        plain(byte) ==> nesting(before.push(byte)) == nesting(before),
        byte == 0x22 ==> nesting(before.push(byte)) == (Nesting { quoted: true, ..nesting(before) }),
{
    assert(before.push(byte).drop_last() =~= before);
}

/// There is no cut inside brackets: a byte that stands in some, or in a string, stays with what
/// is before it.
pub proof fn law_no_cut_inside(before: Seq<u8>, byte: u8, separator: u8)
    requires
        byte != separator || nesting(before).depth != 0 || nesting(before).quoted,
    ensures
        cut(before.push(byte), separator) == cut(before, separator).drop_last().push(
            cut(before, separator).last().push(byte),
        ),
{
    assert(before.push(byte).drop_last() =~= before);
}

/// Whether all bytes of a text are white space.
pub open spec fn all_blank(text: Seq<u8>) -> bool {
    forall|i: int|
        0 <= i < text.len() ==> (#[trigger] text[i] == 0x20 || text[i] == 0x09 || text[i] == 0x0A
            || text[i] == 0x0D)
}

/// Trimming takes white space away, from both ends, and nothing else.
pub proof fn law_trimming(before: Seq<u8>, inner: Seq<u8>, behind: Seq<u8>)
    requires
        all_blank(before),
        all_blank(behind),
        inner.len() > 0 ==> !all_blank(seq![inner[0]]) && !all_blank(seq![inner.last()]),
    ensures
        trimmed(before + inner + behind) == inner,
    decreases before.len() + behind.len(),
{
    let text = before + inner + behind;
    if before.len() > 0 {
        let rest = before.drop_first();
        assert forall|i: int| 0 <= i < rest.len() implies (#[trigger] rest[i] == 0x20 || rest[i]
            == 0x09 || rest[i] == 0x0A || rest[i] == 0x0D) by {
            assert(rest[i] == before[i + 1]);
        }
        assert(blank(before[0]));
        assert(text[0] == before[0]);
        assert(text.drop_first() =~= rest + inner + behind);
        law_trimming(rest, inner, behind);
    } else if behind.len() > 0 {
        let rest = behind.drop_last();
        assert forall|i: int| 0 <= i < rest.len() implies (#[trigger] rest[i] == 0x20 || rest[i]
            == 0x09 || rest[i] == 0x0A || rest[i] == 0x0D) by {
            assert(rest[i] == behind[i]);
        }
        assert(blank(behind[behind.len() - 1]));
        assert(text.last() == behind.last());
        assert(text.drop_last() =~= before + inner + rest);
        law_trimming(before, inner, rest);
        if inner.len() == 0 && blank(text[0]) {
            lemma_blank_text(text);
        } else if inner.len() > 0 {
            assert(text[0] == inner[0]);
            assert(!blank(inner[0])) by {
                if blank(inner[0]) {
                    assert(all_blank(seq![inner[0]]));
                }
            }
        }
    } else {
        assert(text =~= inner);
        if inner.len() > 0 {
            if blank(inner[0]) {
                assert(all_blank(seq![inner[0]]));
            }
            if blank(inner.last()) {
                assert(all_blank(seq![inner.last()]));
            }
        }
    }
}

proof fn lemma_blank_text(text: Seq<u8>)
    requires
        all_blank(text),
    ensures
        trimmed(text) == Seq::<u8>::empty(),
    decreases text.len(),
{
    if text.len() > 0 {
        assert(blank(text[0]));
        let rest = text.drop_first();
        assert forall|i: int| 0 <= i < rest.len() implies (#[trigger] rest[i] == 0x20 || rest[i]
            == 0x09 || rest[i] == 0x0A || rest[i] == 0x0D) by {
            assert(rest[i] == text[i + 1]);
        }
        lemma_blank_text(rest);
    } else {
        assert(text =~= Seq::<u8>::empty());
    }
}

/// What stands between brackets is the text without them and the white space around them; the
/// members or elements there are the parts between commas, and none if there is only white
/// space.
pub proof fn law_enclosed_texts(inner: Seq<u8>, open: u8, close: u8)
    requires
        !blank(open),
        !blank(close),
    ensures
        enclosed(seq![open] + inner + seq![close], open, close) == Some(inner),
        trimmed(inner).len() == 0 ==> listed(inner).len() == 0,
        trimmed(inner).len() > 0 ==> listed(inner) == cut(inner, 0x2C),
{
    let text = seq![open] + inner + seq![close];
    assert(text[0] == open && text.last() == close);
    assert(trimmed(text) == text);
    assert(text.subrange(1, text.len() - 1) =~= inner);
    assert(trimmed(inner).len() == 0 ==> listed(inner) =~= Seq::<Seq<u8>>::empty());
}

} // verus!
