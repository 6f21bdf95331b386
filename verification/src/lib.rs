//! Renders a message inside a speech bubble followed by ASCII art of a
//! chosen animal, in the style of the classic "cowsay" novelty tool.
//!
//! The output stacks three sections separated by single newlines: a top
//! border of dashes, the message greedily word-wrapped into bar-bordered
//! lines of a fixed width, and the art block selected by the animal key
//! (the cow when the key is unrecognized). Every input is accepted; the
//! result is a total, deterministic function of the two strings.

use vstd::prelude::*;

pub mod art;
pub mod wrap;

use crate::art::spec_art;
use crate::wrap::push_char;
use crate::wrap::spec_border;
use crate::wrap::spec_wrap_message;

verus! {

/// The fixed target width, in characters, of each wrapped body line.
pub const WRAP_WIDTH: usize = 40;

/// The rendered output for a message and an animal key: border, wrapped
/// body and art, separated by single newlines, with no trailing newline.
pub open spec fn spec_render(message: Seq<char>, animal: Seq<char>) -> Seq<char> {
    let wrapped = spec_wrap_message(message, WRAP_WIDTH as int);
    spec_border(wrapped) + seq!['\n'] + wrapped + seq!['\n'] + spec_art(animal)
}

/// A message together with the animal key chosen to present it.
pub struct AnimalSay {
    pub message: String,
    pub animal: String,
}

impl AnimalSay {
    /// Captures the message and the animal key.
    pub fn new(message: &str, animal: &str) -> (r: Self)
        ensures
            r.message@ == message@,
            r.animal@ == animal@,
    {
        AnimalSay { message: message.to_owned(), animal: animal.to_owned() }
    }

    /// Renders the speech bubble and the animal art.
    pub fn say(&self) -> (r: String)
        ensures
            r@ == spec_render(self.message@, self.animal@),
    {
        let wrapped_message = self.wrap_message(WRAP_WIDTH);
        let border = self.create_border(wrapped_message.as_str());
        let animal_art = self.get_animal_art();
        let mut out = border;
        push_char(&mut out, '\n');
        out.append(wrapped_message.as_str());
        push_char(&mut out, '\n');
        out.append(animal_art);
        proof {
            assert(out@ =~= spec_render(self.message@, self.animal@));
        }
        out
    }

    /// Wraps the message into bar-bordered lines of `width` characters.
    pub fn wrap_message(&self, width: usize) -> (r: String)
        ensures
            r@ == spec_wrap_message(self.message@, width as int),
    {
        let words = wrap::split_words(self.message.as_str());
        let lines = wrap::wrap_words(&words, width);
        wrap::render_lines(&lines, width)
    }

    /// Builds the top border sized to the first line of the wrapped body.
    pub fn create_border(&self, wrapped_message: &str) -> (r: String)
        ensures
            r@ == spec_border(wrapped_message@),
    {
        wrap::border_for(wrapped_message)
    }

    /// Looks up the art for the animal key, with the cow as fallback.
    pub fn get_animal_art(&self) -> (r: &'static str)
        ensures
            r@ == spec_art(self.animal@),
    {
        art::art_for(self.animal.as_str())
    }

    /// The fixed art table as key/art pairs. It is immutable, its keys are
    /// distinct, the fallback key "cow" is present, and every entry agrees
    /// with the lookup that `get_animal_art` performs.
    pub fn animal_art_map() -> (table: Vec<(&'static str, &'static str)>)
        ensures
            table@.len() == 4,
            table@[0].0@ == "cow"@ && table@[0].1@ == art::cow_art(),
            table@[1].0@ == "sheep"@ && table@[1].1@ == art::sheep_art(),
            table@[2].0@ == "dragon"@ && table@[2].1@ == art::dragon_art(),
            table@[3].0@ == "cat"@ && table@[3].1@ == art::cat_art(),
            forall|i: int, j: int|
                0 <= i < j < table@.len() ==> table@[i].0@ != table@[j].0@,
            forall|i: int| 0 <= i < table@.len() ==> table@[i].1@ == spec_art(table@[i].0@),
    {
        let mut table: Vec<(&'static str, &'static str)> = Vec::new();
        table.push((
            "cow",
            "  \\   ^__^\n   \\  (oo)\\_______\n      (__)\\       )\\/\\\n          ||----w |\n          ||     ||",
        ));
        table.push((
            "sheep",
            "  \\  (__) \n   \\ (oo)\\_______\n      (__)\\       )\\/\\\n          ||----w |\n          ||     ||",
        ));
        table.push((
            "dragon",
            "  \\    \\=====\n   \\   (o  o)\n        |  ~|  \n       (_____)",
        ));
        table.push(("cat", "  \\   /\\_/\\\n   \\  ( o.o )\n        > ^ <"));
        proof {
            art::lemma_keys_distinct();
        }
        table
    }
}

/// Renders `message` in a speech bubble followed by the art for `animal`.
pub fn animalsay(message: &str, animal: &str) -> (r: String)
    ensures
        r@ == spec_render(message@, animal@),
{
    let animal_say = AnimalSay::new(message, animal);
    animal_say.say()
}

/// An empty message renders without failing: the border degenerates to a
/// single space with the dash count clamped at zero, the wrapped body is
/// empty, and the art follows.
pub proof fn lemma_empty_message_render(animal: Seq<char>)
    ensures
        spec_render(Seq::<char>::empty(), animal) == seq![' ', '\n', '\n'] + spec_art(animal),
{
    wrap::lemma_empty_message(WRAP_WIDTH as int);
    assert(seq![' '] + seq!['\n'] + Seq::<char>::empty() + seq!['\n'] + spec_art(animal) =~= seq![
        ' ',
        '\n',
        '\n',
    ] + spec_art(animal));
}

/// Rendering is deterministic: the output is a function of the message and
/// the animal key alone, so repeated calls with identical inputs yield
/// identical output.
pub proof fn lemma_render_deterministic(m1: Seq<char>, a1: Seq<char>, m2: Seq<char>, a2: Seq<char>)
    requires
        m1 == m2,
        a1 == a2,
    ensures
        spec_render(m1, a1) == spec_render(m2, a2),
{
}

} // verus!
