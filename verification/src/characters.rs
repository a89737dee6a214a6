//! The characters that occur in a text.
use vstd::prelude::*;
use std::collections::HashSet;
use crate::text::lemma_code_point_injective;

verus! {

broadcast use vstd::std_specs::hash::group_hash_axioms, vstd::string::group_string_axioms,
    vstd::seq_lib::group_seq_properties;

/// Every distinct character of `data`, each once.
pub fn get_character_set(data: &str) -> (characters: Vec<char>)
    ensures
        characters@.no_duplicates(),
        forall|c: char| characters@.contains(c) <==> data@.contains(c),
{
    let mut seen: HashSet<u32> = HashSet::new();
    let mut characters: Vec<char> = Vec::new();
    for c in it: data.chars()
        invariant
            it.seq() == data@,
            characters@.no_duplicates(),
            forall|x: char| characters@.contains(x) <==> seen@.contains(x as u32),
            forall|x: char|
                characters@.contains(x) <==> it.seq().subrange(0, it.index() as int).contains(x),
    {
        let code = c as u32;
        let ghost before = characters@;
        let ghost seen_before = seen@;
        if seen.insert(code) {
            characters.push(c);
            assert(!before.contains(c));
            assert(characters@ == before.push(c));
        }
        assert(seen@ == seen_before.insert(code));
        assert forall|x: char| characters@.contains(x) <==> seen@.contains(x as u32) by {
            lemma_code_point_injective(x, c);
        }
        proof {
            let prefix = it.seq().subrange(0, it.index() + 1);
            assert(prefix =~= it.seq().subrange(0, it.index() as int).push(c));
        }
    }
    assert(data@.subrange(0, data@.len() as int) =~= data@);
    characters
}

} // verus!
