//! How the text between the delimiters of a piece of markup is taken apart:
//! the name of a tag, the target and data of a processing instruction, the
//! root name of a document type declaration.

use crate::text::{chars_of, is_space, is_whitespace, is_xml_space, is_xml_whitespace, string_of};
use vstd::prelude::*;

verus! {

/// A class of characters that a run at the start of a text may be made of.
#[derive(Clone, Copy, Debug, PartialEq, Eq, Structural)]
pub enum Class {
    /// The characters with the Unicode property White_Space.
    Space,
    /// All other characters.
    Word,
    /// The characters that may stand in a tag's name: all but blank, tab,
    /// carriage return and newline.
    Name,
}

impl Class {
    /// Whether `c` belongs to this class.
    pub open spec fn has(self, c: char) -> bool {
        match self {
            Class::Space => is_space(c),
            Class::Word => !is_space(c),
            Class::Name => !is_xml_space(c),
        }
    }

    /// Tests whether `c` belongs to this class.
    pub fn contains(&self, c: char) -> (yes: bool)
        ensures
            yes == self.has(c),
    {
        match self {
            Class::Space => is_whitespace(c),
            Class::Word => !is_whitespace(c),
            Class::Name => !is_xml_whitespace(c),
        }
    }
}

/// The length of the longest run of characters of `class` that `s` starts
/// with.
pub open spec fn run(s: Seq<char>, class: Class) -> nat
    decreases s.len(),
{
    if s.len() > 0 && class.has(s[0]) {
        1 + run(s.skip(1), class)
    } else {
        0
    }
}

/// The length of the run of `class` that starts at `from`.
pub fn run_length(chars: &Vec<char>, from: usize, class: Class) -> (n: usize)
    requires
        from <= chars.len(),
    ensures
        n == run(chars@.skip(from as int), class),
        from + n <= chars.len(),
{
    let mut i: usize = from;
    while i < chars.len() && class.contains(chars[i])
        invariant
            from <= i <= chars.len(),
            (i - from) + run(chars@.skip(i as int), class) == run(chars@.skip(from as int), class),
        decreases chars.len() - i,
    {
        proof {
            assert(chars@.skip(i as int).skip(1) == chars@.skip(i + 1));
        }
        i = i + 1;
    }
    i - from
}

/// The name of a tag: what stands before the first white space.
pub open spec fn tag_name(content: Seq<char>) -> Seq<char> {
    content.take(run(content, Class::Name) as int)
}

/// What follows the name of a tag: the white space and the attributes.
pub open spec fn tag_rest(content: Seq<char>) -> Seq<char> {
    content.skip(run(content, Class::Name) as int)
}

/// Splits the content of a tag into its name and the rest.
pub fn split_tag(content: &str) -> (parts: (String, String))
    ensures
        parts.0@ == tag_name(content@),
        parts.1@ == tag_rest(content@),
{
    let chars = chars_of(content);
    proof {
        assert(chars@.skip(0) == chars@);
    }
    let n = run_length(&chars, 0, Class::Name);
    let name = string_of(&chars, 0, n);
    let rest = string_of(&chars, n, chars.len());
    (name, rest)
}

/// The target of a processing instruction: what stands before the first
/// white space.
pub open spec fn instruction_target(content: Seq<char>) -> Seq<char> {
    content.take(run(content, Class::Word) as int)
}

/// The data of a processing instruction: what follows the run of white space
/// after the target.
pub open spec fn instruction_data(content: Seq<char>) -> Seq<char> {
    let after = content.skip(run(content, Class::Word) as int);
    after.skip(run(after, Class::Space) as int)
}

/// Splits the content of a processing instruction into target and data.
pub fn split_instruction(content: &str) -> (parts: (String, String))
    ensures
        parts.0@ == instruction_target(content@),
        parts.1@ == instruction_data(content@),
{
    let chars = chars_of(content);
    proof {
        assert(chars@.skip(0) == chars@);
    }
    let n = run_length(&chars, 0, Class::Word);
    let m = run_length(&chars, n, Class::Space);
    let target = string_of(&chars, 0, n);
    let data = string_of(&chars, n + m, chars.len());
    proof {
        assert(chars@.skip(n as int).skip(m as int) == chars@.subrange(
            n + m,
            chars@.len() as int,
        ));
    }
    (target, data)
}

/// The root name of a document type declaration: the first word of its
/// content, or the whole content where it holds no word.
pub open spec fn doctype_name(content: Seq<char>) -> Seq<char> {
    let words = content.skip(run(content, Class::Space) as int);
    if run(words, Class::Word) == 0 {
        content
    } else {
        words.take(run(words, Class::Word) as int)
    }
}

/// Finds the root name in the content of a document type declaration.
pub fn first_word(content: &str) -> (name: String)
    ensures
        name@ == doctype_name(content@),
{
    let chars = chars_of(content);
    proof {
        assert(chars@.skip(0) == chars@);
    }
    let n = run_length(&chars, 0, Class::Space);
    let m = run_length(&chars, n, Class::Word);
    if m == 0 {
        proof {
            assert(chars@.subrange(0, chars@.len() as int) == chars@);
        }
        string_of(&chars, 0, chars.len())
    } else {
        proof {
            assert(chars@.skip(n as int).take(m as int) == chars@.subrange(n as int, n + m));
        }
        string_of(&chars, n, n + m)
    }
}

/// Whether the content of a `<?...?>` construct makes it the XML declaration:
/// it starts with `xml`, in any mix of upper and lower case, and white space
/// follows.
pub open spec fn is_declaration(content: Seq<char>) -> bool {
    &&& content.len() > 3
    &&& (content[0] == 'x' || content[0] == 'X')
    &&& (content[1] == 'm' || content[1] == 'M')
    &&& (content[2] == 'l' || content[2] == 'L')
    &&& is_xml_space(content[3])
}

/// Tells the XML declaration from a processing instruction.
pub fn declares_xml(content: &str) -> (yes: bool)
    ensures
        yes == is_declaration(content@),
{
    let chars = chars_of(content);
    chars.len() > 3 && (chars[0] == 'x' || chars[0] == 'X') && (chars[1] == 'm' || chars[1] == 'M')
        && (chars[2] == 'l' || chars[2] == 'L') && is_xml_whitespace(chars[3])
}

} // verus!
