//! Authenticator extension outputs: the raw map and typed access to it.
//!
//! Each typed accessor returns `None` when the extension is absent or its value
//! does not have the expected structure. Unknown extensions stay in the raw map.

use vstd::prelude::*;

use crate::bytes::copy_bytes;
use crate::data::{entries, find_value, lemma_dict, maybe, member, DataItem, Item};
use crate::text::text_equal;

verus! {

/// Credential properties returned by the `credProps` extension.
#[derive(Debug, Clone, PartialEq, Eq)]
pub struct CredProps {
    /// Whether the credential is stored as a discoverable credential; `None` when the
    /// authenticator omitted this field.
    pub rk: Option<bool>,
}

/// PRF output values from the `prf` extension.
#[derive(Debug, Clone, PartialEq, Eq)]
pub struct PrfValues {
    /// Output bytes for the first PRF input.
    pub first: Vec<u8>,
    /// Output bytes for the second PRF input, or `None` if only one was requested.
    pub second: Option<Vec<u8>>,
}

/// Result of the `prf` extension.
///
/// `results` is `None` when the authenticator processed the extension but returned
/// no output.
#[derive(Debug, Clone, PartialEq, Eq)]
pub struct PrfExtension {
    /// PRF output values, if the authenticator returned them.
    pub results: Option<PrfValues>,
}

/// The mathematical form of [`PrfExtension`]: the first output and, where there is
/// one, the second.
pub type PrfModel = Option<(Seq<u8>, Option<Seq<u8>>)>;

impl View for PrfExtension {
    type V = PrfModel;

    open spec fn view(&self) -> PrfModel {
        match self.results {
            Some(values) => Some((values.first@, maybe(values.second))),
            None => None,
        }
    }
}

/// Extension outputs by extension identifier.
#[derive(Debug)]
pub struct ExtensionMap {
    outputs: Vec<(String, DataItem)>,
}

/// The map that a list of outputs stands for.
pub closed spec fn output_map(outputs: Seq<(String, DataItem)>) -> Map<Seq<char>, Item>
    decreases outputs.len(),
{
    if outputs.len() == 0 {
        Map::empty()
    } else {
        output_map(outputs.drop_last()).insert(outputs.last().0@, outputs.last().1@)
    }
}

/// Whether no identifier occurs twice in a list of outputs.
pub closed spec fn distinct(outputs: Seq<(String, DataItem)>) -> bool {
    forall|i: int, j: int| 0 <= i < j < outputs.len() ==> outputs[i].0@ != outputs[j].0@
}

proof fn lemma_output_map(outputs: Seq<(String, DataItem)>)
    requires
        distinct(outputs),
    ensures
        forall|i: int|
            0 <= i < outputs.len() ==> output_map(outputs).dom().contains(
                (#[trigger] outputs[i]).0@,
            ) && output_map(outputs)[outputs[i].0@] == outputs[i].1@,
        forall|k: Seq<char>| #[trigger]
            output_map(outputs).dom().contains(k) ==> exists|i: int|
                0 <= i < outputs.len() && (#[trigger] outputs[i]).0@ == k,
    decreases outputs.len(),
{
    if outputs.len() > 0 {
        let init = outputs.drop_last();
        lemma_output_map(init);
        assert forall|i: int| 0 <= i < outputs.len() implies output_map(outputs).dom().contains(
            (#[trigger] outputs[i]).0@,
        ) && output_map(outputs)[outputs[i].0@] == outputs[i].1@ by {
            if i < init.len() {
                assert(init[i] == outputs[i]);
            }
        }
        assert forall|k: Seq<char>| #[trigger] output_map(outputs).dom().contains(k) implies exists|
            i: int,
        | 0 <= i < outputs.len() && (#[trigger] outputs[i]).0@ == k by {
            if k == outputs.last().0@ {
                assert(outputs[outputs.len() - 1].0@ == k);
            } else {
                assert(output_map(init).dom().contains(k));
                let i = choose|i: int| 0 <= i < init.len() && (#[trigger] init[i]).0@ == k;
                assert(outputs[i] == init[i]);
            }
        }
    }
}

impl View for ExtensionMap {
    type V = Map<Seq<char>, Item>;

    closed spec fn view(&self) -> Map<Seq<char>, Item> {
        output_map(self.outputs@)
    }
}

impl ExtensionMap {
    #[verifier::type_invariant]
    spec fn no_duplicates(self) -> bool {
        distinct(self.outputs@)
    }

    /// An empty map.
    pub fn new() -> (map: Self)
        ensures
            map@ == Map::<Seq<char>, Item>::empty(),
    {
        ExtensionMap { outputs: Vec::new() }
    }

    fn position(&self, identifier: &str) -> (r: Option<usize>)
        ensures
            match r {
                Some(i) => i < self.outputs@.len() && self.outputs@[i as int].0@ == identifier@,
                None => forall|k: int|
                    0 <= k < self.outputs@.len() ==> (#[trigger] self.outputs@[k]).0@
                        != identifier@,
            },
    {
        let mut i: usize = 0;
        while i < self.outputs.len()
            invariant
                i <= self.outputs@.len(),
                forall|k: int| 0 <= k < i ==> (#[trigger] self.outputs@[k]).0@ != identifier@,
            decreases self.outputs.len() - i,
        {
            if text_equal(self.outputs[i].0.as_str(), identifier) {
                return Some(i);
            }
            i += 1;
        }
        None
    }

    /// Stores the output of an extension, in place of an earlier one.
    pub fn insert(&mut self, identifier: String, output: DataItem)
        ensures
            final(self)@ == old(self)@.insert(identifier@, output@),
    {
        let mut outputs = Vec::new();
        proof {
            use_type_invariant(&*self);
        }
        let at = self.position(identifier.as_str());
        let ghost before = self.outputs@;
        let ghost key = identifier@;
        let ghost value = output@;
        std::mem::swap(&mut outputs, &mut self.outputs);
        match at {
            Some(i) => {
                outputs[i] = (identifier, output);
            },
            None => {
                outputs.push((identifier, output));
            },
        }
        proof {
            assert(distinct(outputs@));
            lemma_output_map(before);
            lemma_output_map(outputs@);
            assert forall|k: Seq<char>|
                output_map(outputs@).dom().contains(k) == output_map(before).insert(
                    key,
                    value,
                ).dom().contains(k) by {
                if output_map(before).dom().contains(k) {
                    let i = choose|i: int| 0 <= i < before.len() && (#[trigger] before[i]).0@ == k;
                    assert(outputs@[i].0@ == k);
                }
                if output_map(outputs@).dom().contains(k) && k != key {
                    let i = choose|i: int|
                        0 <= i < outputs@.len() && (#[trigger] outputs@[i]).0@ == k;
                    assert(before[i].0@ == k);
                }
                if k == key {
                    let i = if at is Some {
                        at->0 as int
                    } else {
                        before.len() as int
                    };
                    assert(outputs@[i].0@ == k);
                }
            }
            assert(output_map(outputs@) =~= output_map(before).insert(key, value)) by {
                assert forall|k: Seq<char>| output_map(outputs@).dom().contains(k) implies
                    output_map(outputs@)[k] == output_map(before).insert(key, value)[k] by {
                    let i = choose|i: int|
                        0 <= i < outputs@.len() && (#[trigger] outputs@[i]).0@ == k;
                    if k != key {
                        assert(before[i] == outputs@[i]);
                    }
                }
            }
        }
        self.outputs = outputs;
    }

    /// The identifiers of the extensions, each once.
    pub fn identifiers(&self) -> (keys: Vec<String>)
        ensures
            forall|k: Seq<char>| #[trigger]
                self@.dom().contains(k) <==> exists|i: int|
                    0 <= i < keys@.len() && (#[trigger] keys@[i])@ == k,
            forall|i: int, j: int| 0 <= i < j < keys@.len() ==> keys@[i]@ != keys@[j]@,
    {
        proof {
            use_type_invariant(self);
            lemma_output_map(self.outputs@);
        }
        let mut keys: Vec<String> = Vec::new();
        let mut i: usize = 0;
        while i < self.outputs.len()
            invariant
                i <= self.outputs@.len(),
                keys@.len() == i,
                forall|k: int| 0 <= k < i ==> (#[trigger] keys@[k])@ == self.outputs@[k].0@,
            decreases self.outputs.len() - i,
        {
            keys.push(self.outputs[i].0.clone());
            i += 1;
        }
        proof {
            assert forall|k: Seq<char>| #[trigger] self@.dom().contains(k) <==> exists|i: int|
                0 <= i < keys@.len() && (#[trigger] keys@[i])@ == k by {
                if self@.dom().contains(k) {
                    let j = choose|j: int|
                        0 <= j < self.outputs@.len() && (#[trigger] self.outputs@[j]).0@ == k;
                    assert(keys@[j]@ == k);
                }
                if exists|i: int| 0 <= i < keys@.len() && (#[trigger] keys@[i])@ == k {
                    let j = choose|i: int| 0 <= i < keys@.len() && (#[trigger] keys@[i])@ == k;
                    assert(self.outputs@[j].0@ == k);
                }
            }
        }
        keys
    }

    /// Looks up the output of an extension.
    pub fn get(&self, identifier: &str) -> (r: Option<&DataItem>)
        ensures
            maybe(r) == if self@.dom().contains(identifier@) {
                Some(self@[identifier@])
            } else {
                None
            },
    {
        proof {
            use_type_invariant(self);
            lemma_output_map(self.outputs@);
        }
        match self.position(identifier) {
            Some(i) => Some(&self.outputs[i].1),
            None => None,
        }
    }
}

/// The output of the `credProps` extension.
pub open spec fn cred_props_of(outputs: Map<Seq<char>, Item>) -> Option<CredProps> {
    if outputs.dom().contains("credProps"@) {
        match outputs["credProps"@] {
            Item::Dict(m) => Some(
                CredProps {
                    rk: match member(m, "rk"@) {
                        Some(Item::Bool(b)) => Some(b),
                        _ => None,
                    },
                },
            ),
            _ => None,
        }
    } else {
        None
    }
}

/// The output of the `appid` extension.
pub open spec fn appid_of(outputs: Map<Seq<char>, Item>) -> Option<bool> {
    if outputs.dom().contains("appid"@) {
        match outputs["appid"@] {
            Item::Bool(b) => Some(b),
            _ => None,
        }
    } else {
        None
    }
}

/// The byte string under `key`.
pub open spec fn bytes_member(m: Seq<(Item, Item)>, key: Seq<char>) -> Option<Seq<u8>> {
    match member(m, key) {
        Some(Item::Bytes(b)) => Some(b),
        _ => None,
    }
}

/// The output of the `prf` extension. Results without a `first` byte string are none.
pub open spec fn prf_of(outputs: Map<Seq<char>, Item>) -> Option<PrfModel> {
    if outputs.dom().contains("prf"@) {
        match outputs["prf"@] {
            Item::Dict(m) => match member(m, "results"@) {
                None => Some(None),
                Some(Item::Dict(inner)) => match bytes_member(inner, "first"@) {
                    Some(first) => Some(Some((first, bytes_member(inner, "second"@)))),
                    None => None,
                },
                Some(_) => None,
            },
            _ => None,
        }
    } else {
        None
    }
}

/// A typed view over the raw extension map of a result.
#[derive(Debug)]
pub struct ExtensionView<'a> {
    outputs: &'a ExtensionMap,
}

impl<'a> ExtensionView<'a> {
    /// The raw outputs that this view reads.
    pub closed spec fn raw(&self) -> Map<Seq<char>, Item> {
        self.outputs@
    }

    /// A view over `outputs`.
    pub fn new(outputs: &'a ExtensionMap) -> (view: Self)
        ensures
            view.raw() == outputs@,
    {
        ExtensionView { outputs }
    }

    /// The `credProps` extension: `None` if it is absent or not a map. `rk` is `None`
    /// if the authenticator omitted it or it is not a boolean.
    pub fn cred_props(&self) -> (r: Option<CredProps>)
        ensures
            r == cred_props_of(self.raw()),
    {
        match self.outputs.get("credProps") {
            Some(DataItem::Dict(m)) => {
                proof {
                    lemma_dict(*m);
                }
                Some(CredProps { rk: find_bool(m, "rk") })
            },
            _ => None,
        }
    }

    /// The `appid` extension: whether the legacy U2F identifier was used, or `None` if
    /// the extension is absent or not a boolean.
    pub fn appid(&self) -> (r: Option<bool>)
        ensures
            r == appid_of(self.raw()),
    {
        match self.outputs.get("appid") {
            Some(DataItem::Bool(b)) => Some(*b),
            _ => None,
        }
    }

    /// The `prf` extension: `None` if it is absent, not a map, or has results without
    /// a `first` byte string; without `results` where the authenticator gave no output.
    pub fn prf(&self) -> (r: Option<PrfExtension>)
        ensures
            maybe(r) == prf_of(self.raw()),
    {
        match self.outputs.get("prf") {
            Some(DataItem::Dict(m)) => {
                proof {
                    lemma_dict(*m);
                }
                match find_value(m, "results") {
                    None => Some(PrfExtension { results: None }),
                    Some(DataItem::Dict(inner)) => {
                        proof {
                            lemma_dict(*inner);
                        }
                        match find_bytes(inner, "first") {
                            Some(first) => {
                                let second = find_bytes(inner, "second");
                                Some(PrfExtension { results: Some(PrfValues { first, second }) })
                            },
                            None => None,
                        }
                    },
                    Some(_) => None,
                }
            },
            _ => None,
        }
    }
}

fn find_bool(map: &Vec<(DataItem, DataItem)>, key: &str) -> (r: Option<bool>)
    ensures
        r == match member(entries(map@), key@) {
            Some(Item::Bool(b)) => Some(b),
            _ => None,
        },
{
    match find_value(map, key) {
        Some(DataItem::Bool(b)) => Some(*b),
        _ => None,
    }
}

fn find_bytes(map: &Vec<(DataItem, DataItem)>, key: &str) -> (r: Option<Vec<u8>>)
    ensures
        maybe(r) == bytes_member(entries(map@), key@),
{
    match find_value(map, key) {
        Some(DataItem::Bytes(b)) => Some(copy_bytes(b.as_slice())),
        _ => None,
    }
}

/// Extensions that are not known do not matter: maps that agree on the known identifiers
/// give the same typed outputs.
pub proof fn law_unknown_extensions_do_not_matter(
    a: Map<Seq<char>, Item>,
    b: Map<Seq<char>, Item>,
)
    requires
        forall|id: Seq<char>|
            id == "credProps"@ || id == "appid"@ || id == "prf"@ ==> (
            #[trigger] a.dom().contains(id) == b.dom().contains(id) && (a.dom().contains(id)
                ==> a[id] == b[id])),
    ensures
        cred_props_of(a) == cred_props_of(b),
        appid_of(a) == appid_of(b),
        prf_of(a) == prf_of(b),
{
    assert(a.dom().contains("credProps"@) == b.dom().contains("credProps"@));
    assert(a.dom().contains("appid"@) == b.dom().contains("appid"@));
    assert(a.dom().contains("prf"@) == b.dom().contains("prf"@));
}

/// The typed extension outputs are read out of the raw ones: credential properties from a map,
/// the application ID flag from a boolean, and PRF values from the byte strings in a map of
/// results. Anything else counts as absent.
pub proof fn law_typed_outputs(outputs: Map<Seq<char>, Item>, m: Seq<(Item, Item)>, flag: bool)
    ensures
        outputs.dom().contains("credProps"@) && outputs["credProps"@] == Item::Dict(m) ==> (
        cred_props_of(outputs) matches Some(props) && (props.rk == Some(flag) <==> member(m, "rk"@)
            == Some(Item::Bool(flag))) && (props.rk is None <==> !(member(
            m,
            "rk"@,
        ) matches Some(Item::Bool(_))))),
        cred_props_of(outputs) is Some ==> outputs.dom().contains("credProps"@)
            && outputs["credProps"@] is Dict,
        appid_of(outputs) == Some(flag) <==> outputs.dom().contains("appid"@) && outputs["appid"@]
            == Item::Bool(flag),
        appid_of(outputs) is Some ==> outputs.dom().contains("appid"@) && outputs["appid"@] is Bool,
        prf_of(outputs) is Some ==> outputs.dom().contains("prf"@) && outputs["prf"@] is Dict,
        outputs.dom().contains("prf"@) && outputs["prf"@] == Item::Dict(m) ==> match member(
            m,
            "results"@,
        ) {
            None => prf_of(outputs) == Some(None::<(Seq<u8>, Option<Seq<u8>>)>),
            Some(Item::Dict(results)) => match member(results, "first"@) {
                Some(Item::Bytes(first)) => match member(results, "second"@) {
                    Some(Item::Bytes(second)) => prf_of(outputs) == Some(
                        Some((first, Some(second))),
                    ),
                    _ => prf_of(outputs) == Some(Some((first, None::<Seq<u8>>))),
                },
                _ => prf_of(outputs) is None,
            },
            Some(_) => prf_of(outputs) is None,
        },
{
}

} // verus!
