//! Configuration for the `AsciiDoc` module.

use std::collections::HashMap;

use vstd::prelude::*;

use crate::text::own;

verus! {

/// Asciidoctor safe mode.
#[derive(Clone, Debug, PartialEq, Eq, Structural)]
pub enum SafeMode {
    Unsafe,
    Safe,
    Server,
    Secure,
}

/// The command-line name of a safe mode.
pub open spec fn safe_mode_name(m: SafeMode) -> Seq<char> {
    match m {
        SafeMode::Unsafe => "unsafe"@,
        SafeMode::Safe => "safe"@,
        SafeMode::Server => "server"@,
        SafeMode::Secure => "secure"@,
    }
}

impl SafeMode {
    /// The command-line name of this safe mode (`unsafe`, `safe`, `server`
    /// or `secure`).
    pub fn to_string(&self) -> (r: String)
        ensures
            r@ == safe_mode_name(*self),
    {
        match self {
            SafeMode::Unsafe => own("unsafe"),
            SafeMode::Safe => own("safe"),
            SafeMode::Server => own("server"),
            SafeMode::Secure => own("secure"),
        }
    }
}

impl Default for SafeMode {
    fn default() -> (r: SafeMode)
        ensures
            r == SafeMode::Safe,
    {
        SafeMode::Safe
    }
}

/// The attributes held by a map, by key and value text.
pub uninterp spec fn attribute_map(m: HashMap<String, String>) -> Map<Seq<char>, Seq<char>>;

/// The map holding the pairs, inserted in order.
pub open spec fn map_of_pairs(pairs: Seq<(Seq<char>, Seq<char>)>) -> Map<Seq<char>, Seq<char>>
    decreases pairs.len(),
{
    if pairs.len() == 0 {
        Map::empty()
    } else {
        map_of_pairs(pairs.drop_last()).insert(pairs.last().0, pairs.last().1)
    }
}

pub open spec fn pair_view(p: (String, String)) -> (Seq<char>, Seq<char>) {
    (p.0@, p.1@)
}

/// Builds a `HashMap` with `FromIterator::from_iter` from pairs with
/// distinct keys; the map holds exactly those pairs. (Which value survives
/// for a repeated key is not documented, so keys must be distinct.) The
/// contents are stated over `attribute_map`.
#[verifier::external_body]
pub(crate) fn attributes_from_pairs(pairs: Vec<(String, String)>) -> (r: HashMap<String, String>)
    requires
        forall|i: int, j: int|
            0 <= i < j < pairs@.len() ==> (#[trigger] pairs@[i]).0@ != (#[trigger] pairs@[j]).0@,
    ensures
        attribute_map(r) == map_of_pairs(pairs@.map_values(|p: (String, String)| pair_view(p))),
{
    pairs.into_iter().collect()
}

/// Walks a `HashMap` with `HashMap::iter`, cloning each key and value. The
/// order of the walk depends on the map's hasher and is not stated; what
/// holds of every walk is: each key occurs once, each pair is in the map,
/// and every key of the map occurs.
#[verifier::external_body]
pub(crate) fn attribute_pairs(m: &HashMap<String, String>) -> (r: Vec<(String, String)>)
    ensures
        r@.len() == attribute_map(*m).dom().len(),
        forall|i: int, j: int|
            0 <= i < j < r@.len() ==> (#[trigger] r@[i]).0@ != (#[trigger] r@[j]).0@,
        forall|i: int|
            0 <= i < r@.len() ==> attribute_map(*m).contains_key((#[trigger] r@[i]).0@)
                && attribute_map(*m)[r@[i].0@] == r@[i].1@,
        forall|k: Seq<char>|
            #[trigger] attribute_map(*m).contains_key(k) ==> exists|i: int|
                0 <= i < r@.len() && (#[trigger] r@[i]).0@ == k,
{
    m.iter().map(|(k, v)| (k.clone(), v.clone())).collect()
}

/// Configuration for the `AsciiDoc` module.
#[derive(Clone, Debug)]
pub struct Config {
    /// Path to asciidoctor binary.
    pub asciidoctor_cmd: String,
    /// Safe mode for asciidoctor.
    pub safe_mode: SafeMode,
    /// Asciidoctor attributes passed as `-a key=value`.
    pub attributes: HashMap<String, String>,
    /// Ruby libraries to require via `-r`.
    pub requires: Vec<String>,
    /// Whether to fail the build on render errors.
    pub fail_on_error: bool,
}

/// The attributes of the default configuration.
pub open spec fn default_attributes() -> Map<Seq<char>, Seq<char>> {
    map![
        "showtitle"@ => Seq::<char>::empty(),
        "sectanchors"@ => Seq::<char>::empty(),
        "source-highlighter"@ => "rouge"@,
    ]
}

impl Default for Config {
    fn default() -> (r: Config)
        ensures
            r.asciidoctor_cmd@ == "asciidoctor"@,
            r.safe_mode == SafeMode::Safe,
            attribute_map(r.attributes) == default_attributes(),
            r.requires@.len() == 0,
            r.fail_on_error,
    {
        let pairs = vec![
            (own("showtitle"), String::new()),
            (own("sectanchors"), String::new()),
            (own("source-highlighter"), own("rouge")),
        ];
        proof {
            reveal_strlit("showtitle");
            reveal_strlit("sectanchors");
            reveal_strlit("source-highlighter");
            assert forall|i: int, j: int| 0 <= i < j < pairs@.len() implies (#[trigger] pairs@[i]).0@
                != (#[trigger] pairs@[j]).0@ by {
                assert(pairs@[i].0@.len() != pairs@[j].0@.len());
            }
        }
        let attributes = attributes_from_pairs(pairs);
        proof {
            let pv = pairs@.map_values(|p: (String, String)| pair_view(p));
            let p0 = pv.drop_last().drop_last().drop_last();
            let p1 = pv.drop_last().drop_last();
            let p2 = pv.drop_last();
            assert(p0 =~= Seq::<(Seq<char>, Seq<char>)>::empty());
            assert(map_of_pairs(p0) == Map::<Seq<char>, Seq<char>>::empty());
            assert(map_of_pairs(p1) == map_of_pairs(p0).insert("showtitle"@, Seq::<char>::empty()));
            assert(map_of_pairs(p2) == map_of_pairs(p1).insert("sectanchors"@, Seq::<char>::empty()));
            assert(map_of_pairs(pv) == map_of_pairs(p2).insert("source-highlighter"@, "rouge"@));
            assert(map_of_pairs(pv) =~= default_attributes());
        }
        Config {
            asciidoctor_cmd: own("asciidoctor"),
            safe_mode: SafeMode::Safe,
            attributes,
            requires: Vec::new(),
            fail_on_error: true,
        }
    }
}

} // verus!
