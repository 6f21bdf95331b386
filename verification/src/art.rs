//! The fixed animal art table: a small immutable set of ASCII-art blocks
//! keyed by animal name, with "cow" as the designated fallback for any
//! unrecognized key.

use vstd::prelude::*;

verus! {

/// The cow, the designated fallback art.
pub open spec fn cow_art() -> Seq<char> {
    "  \\   ^__^\n   \\  (oo)\\_______\n      (__)\\       )\\/\\\n          ||----w |\n          ||     ||"@
}

/// The sheep.
pub open spec fn sheep_art() -> Seq<char> {
    "  \\  (__) \n   \\ (oo)\\_______\n      (__)\\       )\\/\\\n          ||----w |\n          ||     ||"@
}

/// The dragon.
pub open spec fn dragon_art() -> Seq<char> {
    "  \\    \\=====\n   \\   (o  o)\n        |  ~|  \n       (_____)"@
}

/// The cat.
pub open spec fn cat_art() -> Seq<char> {
    "  \\   /\\_/\\\n   \\  ( o.o )\n        > ^ <"@
}

/// The art selected for an animal key: an exact-match lookup in the fixed
/// table, falling back to the cow for any key that is not in it.
pub open spec fn spec_art(animal: Seq<char>) -> Seq<char> {
    if animal == "cow"@ {
        cow_art()
    } else if animal == "sheep"@ {
        sheep_art()
    } else if animal == "dragon"@ {
        dragon_art()
    } else if animal == "cat"@ {
        cat_art()
    } else {
        cow_art()
    }
}

/// The four keys of the art table are pairwise distinct.
pub proof fn lemma_keys_distinct()
    ensures
        "cow"@ != "sheep"@,
        "cow"@ != "dragon"@,
        "cow"@ != "cat"@,
        "sheep"@ != "dragon"@,
        "sheep"@ != "cat"@,
        "dragon"@ != "cat"@,
{
    reveal_strlit("cow");
    reveal_strlit("sheep");
    reveal_strlit("dragon");
    reveal_strlit("cat");
    assert("cow"@.len() == 3 && "sheep"@.len() == 5 && "dragon"@.len() == 6 && "cat"@.len()
        == 3);
    assert("cow"@[1] == 'o' && "cat"@[1] == 'a');
}

/// An unrecognized animal key selects exactly the art that the fallback
/// key "cow" selects.
pub proof fn lemma_unrecognized_key_falls_back(animal: Seq<char>)
    requires
        animal != "cow"@,
        animal != "sheep"@,
        animal != "dragon"@,
        animal != "cat"@,
    ensures
        spec_art(animal) == spec_art("cow"@),
{
}

/// Character-by-character string equality.
pub fn str_eq(a: &str, b: &str) -> (r: bool)
    ensures
        r == (a@ == b@),
{
    let na = a.unicode_len();
    let nb = b.unicode_len();
    if na != nb {
        return false;
    }
    let mut i: usize = 0;
    while i < na
        invariant
            na as nat == a@.len(),
            nb as nat == b@.len(),
            na == nb,
            i <= na,
            forall|j: int| 0 <= j < i ==> a@[j] == b@[j],
        decreases na - i,
    {
        if a.get_char(i) != b.get_char(i) {
            return false;
        }
        i = i + 1;
    }
    proof {
        assert(a@ =~= b@);
    }
    true
}

/// The art for the given animal key, with the cow as fallback.
pub fn art_for(animal: &str) -> (r: &'static str)
    ensures
        r@ == spec_art(animal@),
{
    if str_eq(animal, "cow") {
        "  \\   ^__^\n   \\  (oo)\\_______\n      (__)\\       )\\/\\\n          ||----w |\n          ||     ||"
    } else if str_eq(animal, "sheep") {
        "  \\  (__) \n   \\ (oo)\\_______\n      (__)\\       )\\/\\\n          ||----w |\n          ||     ||"
    } else if str_eq(animal, "dragon") {
        "  \\    \\=====\n   \\   (o  o)\n        |  ~|  \n       (_____)"
    } else if str_eq(animal, "cat") {
        "  \\   /\\_/\\\n   \\  ( o.o )\n        > ^ <"
    } else {
        "  \\   ^__^\n   \\  (oo)\\_______\n      (__)\\       )\\/\\\n          ||----w |\n          ||     ||"
    }
}

} // verus!
