use vstd::prelude::*;

use crate::face::{face_of, parse_face, texts, Face, FaceModel};
use crate::text::{is_space, same_text, split_words, words};

verus! {

/// What one line of an OBJ file contributes to a mesh. `P` carries the three
/// coordinates of a vertex or a normal, `Q` the two of a texture coordinate.
pub enum Element<P, Q> {
    Vertex(P),
    Normal(P),
    TexCoord(Q),
    Face(Face),
    Material(String),
    MaterialLib(String),
    Object(String),
    Group(String),
    Ignored,
}

pub enum Entry<P, Q> {
    Vertex(P),
    Normal(P),
    TexCoord(Q),
    Face(FaceModel),
    Material(Seq<char>),
    MaterialLib(Seq<char>),
    Object(Seq<char>),
    Group(Seq<char>),
    Ignored,
}

impl<P, Q> View for Element<P, Q> {
    type V = Entry<P, Q>;

    open spec fn view(&self) -> Entry<P, Q> {
        match self {
            Element::Vertex(p) => Entry::Vertex(*p),
            Element::Normal(p) => Entry::Normal(*p),
            Element::TexCoord(q) => Entry::TexCoord(*q),
            Element::Face(f) => Entry::Face(f@),
            Element::Material(s) => Entry::Material(s@),
            Element::MaterialLib(s) => Entry::MaterialLib(s@),
            Element::Object(s) => Entry::Object(s@),
            Element::Group(s) => Entry::Group(s@),
            Element::Ignored => Entry::Ignored,
        }
    }
}

/// Words of a line, each as its characters.
pub type Words = Seq<Seq<char>>;

/// An element whose coordinates are still the words that wrote them.
pub type TextEntry = Entry<Words, Words>;

/// The entry with its coordinate words read as text.
pub open spec fn text_entry<'a>(e: Entry<Vec<&'a str>, Vec<&'a str>>) -> TextEntry {
    match e {
        Entry::Vertex(p) => Entry::Vertex(texts(p@)),
        Entry::Normal(p) => Entry::Normal(texts(p@)),
        Entry::TexCoord(q) => Entry::TexCoord(texts(q@)),
        Entry::Face(f) => Entry::Face(f),
        Entry::Material(s) => Entry::Material(s),
        Entry::MaterialLib(s) => Entry::MaterialLib(s),
        Entry::Object(s) => Entry::Object(s),
        Entry::Group(s) => Entry::Group(s),
        Entry::Ignored => Entry::Ignored,
    }
}

/// What a line split into words contributes. Blank lines and lines whose first word
/// starts with `#` contribute nothing; so do unknown keywords and lines with too few
/// words. `v` and `vn` take the next three words as coordinates, `vt` the next two;
/// `f` takes all the words after it as face references; the four name keywords take
/// the first word after them.
pub open spec fn entry_of_words(ws: Words) -> TextEntry {
    if ws.len() == 0 || (ws[0].len() > 0 && ws[0][0] == '#') {
        Entry::Ignored
    } else if ws[0] == "v"@ {
        if ws.len() >= 4 {
            Entry::Vertex(ws.subrange(1, 4))
        } else {
            Entry::Ignored
        }
    } else if ws[0] == "vn"@ {
        if ws.len() >= 4 {
            Entry::Normal(ws.subrange(1, 4))
        } else {
            Entry::Ignored
        }
    } else if ws[0] == "vt"@ {
        if ws.len() >= 3 {
            Entry::TexCoord(ws.subrange(1, 3))
        } else {
            Entry::Ignored
        }
    } else if ws[0] == "f"@ {
        if ws.len() >= 4 {
            Entry::Face(face_of(ws.drop_first()))
        } else {
            Entry::Ignored
        }
    } else if ws.len() < 2 {
        Entry::Ignored
    } else if ws[0] == "usemtl"@ {
        Entry::Material(ws[1])
    } else if ws[0] == "mtllib"@ {
        Entry::MaterialLib(ws[1])
    } else if ws[0] == "o"@ {
        Entry::Object(ws[1])
    } else if ws[0] == "g"@ {
        Entry::Group(ws[1])
    } else {
        Entry::Ignored
    }
}

/// What a line contributes.
pub open spec fn line_entry(line: Seq<char>) -> TextEntry {
    entry_of_words(words(line))
}

/// A keyword that some line kind starts with.
pub open spec fn is_keyword(w: Seq<char>) -> bool {
    w == "v"@ || w == "vn"@ || w == "vt"@ || w == "f"@ || w == "usemtl"@ || w == "mtllib"@
        || w == "o"@ || w == "g"@
}

/// A line made of whitespace only.
pub open spec fn is_blank(line: Seq<char>) -> bool {
    forall|i: int| 0 <= i < line.len() ==> is_space(#[trigger] line[i])
}

/// A line whose first character that is not whitespace is `#`.
pub open spec fn is_comment(line: Seq<char>) -> bool {
    exists|k: int|
        0 <= k < line.len() && line[k] == '#' && forall|i: int|
            0 <= i < k ==> is_space(#[trigger] line[i])
}

fn first_words<'a>(parts: &Vec<&'a str>, n: usize) -> (r: Vec<&'a str>)
    requires
        n <= 3,
        1 + n <= parts@.len(),
    ensures
        texts(r@) == texts(parts@).subrange(1, 1 + n as int),
{
    let mut out: Vec<&'a str> = Vec::new();
    let end: usize = n + 1;
    let mut i: usize = 1;
    while i < end
        invariant
            end == 1 + n,
            end <= parts@.len(),
            1 <= i <= end,
            texts(out@) == texts(parts@).subrange(1, i as int),
        decreases end - i,
    {
        let ghost before = out@;
        out.push(parts[i]);
        assert(out@ == before.push(parts@[i as int]));
        assert(texts(out@) =~= texts(before).push(parts@[i as int]@));
        assert(texts(parts@).subrange(1, i + 1) =~= texts(parts@).subrange(1, i as int).push(
            parts@[i as int]@,
        ));
        i = i + 1;
    }
    out
}

/// Classifies one line of an OBJ file and reads what it carries. Coordinates are
/// handed back as their words, for the caller to read as numbers.
pub fn parse_line<'a>(line: &'a str) -> (r: Element<Vec<&'a str>, Vec<&'a str>>)
    ensures
        text_entry(r@) == line_entry(line@),
{
    let parts = split_words(line);
    let ghost ws = texts(parts@);
    assert(ws == words(line@));
    if parts.len() == 0 {
        return Element::Ignored;
    }
    let key = parts[0];
    assert(ws[0] == key@);
    if key.unicode_len() > 0 && key.get_char(0) == '#' {
        return Element::Ignored;
    }
    if same_text(key, "v") {
        if parts.len() >= 4 {
            Element::Vertex(first_words(&parts, 3))
        } else {
            Element::Ignored
        }
    } else if same_text(key, "vn") {
        if parts.len() >= 4 {
            Element::Normal(first_words(&parts, 3))
        } else {
            Element::Ignored
        }
    } else if same_text(key, "vt") {
        if parts.len() >= 3 {
            Element::TexCoord(first_words(&parts, 2))
        } else {
            Element::Ignored
        }
    } else if same_text(key, "f") {
        assert(texts(parts@).drop_first() == ws.drop_first());
        match parse_face(parts.as_slice()) {
            Some(f) => Element::Face(f),
            None => Element::Ignored,
        }
    } else if parts.len() < 2 {
        Element::Ignored
    } else {
        assert(ws[1] == parts@[1]@);
        let name = String::from_str(parts[1]);
        if same_text(key, "usemtl") {
            Element::Material(name)
        } else if same_text(key, "mtllib") {
            Element::MaterialLib(name)
        } else if same_text(key, "o") {
            Element::Object(name)
        } else if same_text(key, "g") {
            Element::Group(name)
        } else {
            Element::Ignored
        }
    }
}

} // verus!
