//! Loading one document into the shared output mapping: parse the text,
//! draw a weight for every entry, and upsert each name with its weight.

use vstd::prelude::*;

use crate::entry::Entry;
use crate::input::Input;
use crate::json::spec_parse_names;
use crate::json::ParseError;
use crate::mapping::NameMap;
use crate::weights::draw_weight;

verus! {

/// What merging a list of names into a mapping guarantees, whatever weights
/// were drawn: the key set grows by exactly the names; keys not named keep
/// their weight; every named key holds some weight in `[1, 999]`.
pub open spec fn merged_ok(
    before: Map<Seq<char>, u32>,
    names: Seq<Seq<char>>,
    after: Map<Seq<char>, u32>,
) -> bool {
    &&& forall|k: Seq<char>|
        #[trigger] after.dom().contains(k) <==> before.dom().contains(k) || names.contains(k)
    &&& forall|k: Seq<char>|
        before.dom().contains(k) && !names.contains(k) ==> #[trigger] after[k] == before[k]
    &&& forall|k: Seq<char>| #[trigger] names.contains(k) ==> 1 <= after[k] <= 999
}

/// Taking one more name extends what the prefix contains by exactly that name.
proof fn lemma_take_contains(names: Seq<Seq<char>>, i: int, k: Seq<char>)
    requires
        0 <= i < names.len(),
    ensures
        names.take(i + 1).contains(k) <==> (names.take(i).contains(k) || names[i] == k),
{
    if names.take(i + 1).contains(k) {
        let j = choose|j: int| 0 <= j < i + 1 && #[trigger] names.take(i + 1)[j] == k;
        if j < i {
            assert(names.take(i)[j] == k);
        } else {
            assert(names[i] == k);
        }
    }
    if names.take(i).contains(k) {
        let j = choose|j: int| 0 <= j < i && #[trigger] names.take(i)[j] == k;
        assert(names.take(i + 1)[j] == k);
    }
    if names[i] == k {
        assert(names.take(i + 1)[i] == k);
    }
}

/// Parses a document into an `Input`, one entry per element, in document
/// order. Succeeds exactly when the text is a well-formed array of objects
/// each carrying one `"name"` string member.
pub fn parse_input(text: &str) -> (r: Result<Input, ParseError>)
    ensures
        r is Ok <==> spec_parse_names(text@) is Some,
        r matches Ok(inp) ==> spec_parse_names(text@) == Some(
            inp.entries().map_values(|e: Entry| e.name@),
        ),
{
    let names = match crate::json::parse_names(text) {
        Result::Ok(names) => names,
        Result::Err(e) => {
            return Err(e);
        },
    };
    let mut entries: Vec<Entry> = Vec::new();
    let n = names.len();
    let mut i: usize = 0;
    while i < n
        invariant
            n == names@.len(),
            i <= n,
            entries@.len() == i,
            forall|j: int| 0 <= j < i ==> (#[trigger] entries@[j]).name@ == names@[j]@,
        decreases n - i,
    {
        let nm = names[i].clone();
        entries.push(Entry { name: nm });
        i = i + 1;
    }
    proof {
        assert(entries@.map_values(|e: Entry| e.name@) =~= names@.map_values(|x: String| x@));
    }
    Ok(Input::Values(entries))
}

/// Draws a weight for every entry, in order, and upserts `(name, weight)`
/// into the mapping; an existing exact-spelling key takes the newest weight.
pub fn include_entries(input: &Input, rng: &mut rand::rngs::ThreadRng, map: &mut NameMap)
    requires
        old(map).wf(),
    ensures
        final(map).wf(),
        merged_ok(old(map)@, input.entries().map_values(|e: Entry| e.name@), final(map)@),
{
    let ghost names = input.entries().map_values(|e: Entry| e.name@);
    let entries = input.get();
    let n = entries.len();
    let mut i: usize = 0;
    while i < n
        invariant
            n == entries@.len(),
            i <= n,
            entries@ == input.entries(),
            names == input.entries().map_values(|e: Entry| e.name@),
            map.wf(),
            merged_ok(old(map)@, names.take(i as int), map@),
        decreases n - i,
    {
        let w = draw_weight(rng);
        let name = entries[i].name.clone();
        proof {
            assert(names[i as int] == name@);
        }
        let ghost before = map@;
        map.insert(name, w);
        proof {
            assert forall|k: Seq<char>|
                names.take(i + 1).contains(k) <==> (names.take(i as int).contains(k)
                    || names[i as int] == k) by {
                lemma_take_contains(names, i as int, k);
            }
            assert forall|k: Seq<char>| #[trigger]
                names.take(i + 1).contains(k) implies 1 <= map@[k] <= 999 by {
                if k == names[i as int] {
                } else {
                    assert(names.take(i as int).contains(k));
                }
            }
            assert forall|k: Seq<char>| #[trigger]
                map@.dom().contains(k) <==> (old(map)@.dom().contains(k) || names.take(
                i + 1,
            ).contains(k)) by {
                if map@.dom().contains(k) {
                    if k != names[i as int] {
                        assert(before.dom().contains(k));
                    }
                }
                if names.take(i + 1).contains(k) {
                    if k != names[i as int] {
                        assert(names.take(i as int).contains(k));
                        assert(before.dom().contains(k));
                    }
                }
            }
            assert forall|k: Seq<char>|
                old(map)@.dom().contains(k) && !names.take(i + 1).contains(k) implies #[trigger]
                map@[k] == old(map)@[k] by {
                assert(!names.take(i as int).contains(k));
                assert(k != names[i as int]) by {
                    if k == names[i as int] {
                        lemma_take_contains(names, i as int, k);
                    }
                }
                assert(map@[k] == before[k]);
            }
        }
        i = i + 1;
    }
    proof {
        assert(names.take(n as int) =~= names);
    }
}

/// The compute part of loading one source: parse the document text and merge
/// every entry with a fresh weight into the shared mapping. Fails, leaving
/// the mapping untouched, exactly when the text does not parse.
pub fn merge_document(text: &str, rng: &mut rand::rngs::ThreadRng, map: &mut NameMap) -> (r: Result<
    (),
    ParseError,
>)
    requires
        old(map).wf(),
    ensures
        final(map).wf(),
        r is Ok <==> spec_parse_names(text@) is Some,
        r is Err ==> *final(map) == *old(map),
        spec_parse_names(text@) matches Some(nms) ==> merged_ok(old(map)@, nms, final(map)@),
{
    match parse_input(text) {
        Result::Ok(input) => {
            include_entries(&input, rng, map);
            Ok(())
        },
        Result::Err(e) => Err(e),
    }
}

} // verus!
