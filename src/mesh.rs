use vstd::prelude::*;

use crate::face::{texts, Face, FaceModel};
use crate::line::{
    is_blank, is_comment, is_keyword, line_entry, parse_line, text_entry, Element, Entry, Words,
};
use crate::text::{is_space, lemma_blank_has_no_words, lemma_comment_first_word, same_text, words};

verus! {

/// A mesh read from an OBJ file: its elements in source order, and every name that the
/// `usemtl`, `mtllib`, `o` and `g` lines gave, with repeats.
pub struct Mesh<P, Q> {
    pub vertices: Vec<P>,
    pub normals: Vec<P>,
    pub texcoords: Vec<Q>,
    pub faces: Vec<Face>,
    pub materials: Vec<String>,
    pub mtllibs: Vec<String>,
    pub objects: Vec<String>,
    pub groups: Vec<String>,
}

pub struct MeshModel<P, Q> {
    pub vertices: Seq<P>,
    pub normals: Seq<P>,
    pub texcoords: Seq<Q>,
    pub faces: Seq<FaceModel>,
    pub materials: Seq<Seq<char>>,
    pub mtllibs: Seq<Seq<char>>,
    pub objects: Seq<Seq<char>>,
    pub groups: Seq<Seq<char>>,
}

/// The texts of a list of names.
pub open spec fn names(v: Seq<String>) -> Seq<Seq<char>> {
    v.map_values(|s: String| s@)
}

impl<P, Q> View for Mesh<P, Q> {
    type V = MeshModel<P, Q>;

    open spec fn view(&self) -> MeshModel<P, Q> {
        MeshModel {
            vertices: self.vertices@,
            normals: self.normals@,
            texcoords: self.texcoords@,
            faces: self.faces@.map_values(|f: Face| f@),
            materials: names(self.materials@),
            mtllibs: names(self.mtllibs@),
            objects: names(self.objects@),
            groups: names(self.groups@),
        }
    }
}

pub open spec fn empty_mesh<P, Q>() -> MeshModel<P, Q> {
    MeshModel {
        vertices: Seq::empty(),
        normals: Seq::empty(),
        texcoords: Seq::empty(),
        faces: Seq::empty(),
        materials: Seq::empty(),
        mtllibs: Seq::empty(),
        objects: Seq::empty(),
        groups: Seq::empty(),
    }
}

/// The mesh with one more element appended to the list it belongs to.
pub open spec fn apply_entry<P, Q>(m: MeshModel<P, Q>, e: Entry<P, Q>) -> MeshModel<P, Q> {
    match e {
        Entry::Vertex(p) => MeshModel { vertices: m.vertices.push(p), ..m },
        Entry::Normal(p) => MeshModel { normals: m.normals.push(p), ..m },
        Entry::TexCoord(q) => MeshModel { texcoords: m.texcoords.push(q), ..m },
        Entry::Face(f) => MeshModel { faces: m.faces.push(f), ..m },
        Entry::Material(s) => MeshModel { materials: m.materials.push(s), ..m },
        Entry::MaterialLib(s) => MeshModel { mtllibs: m.mtllibs.push(s), ..m },
        Entry::Object(s) => MeshModel { objects: m.objects.push(s), ..m },
        Entry::Group(s) => MeshModel { groups: m.groups.push(s), ..m },
        Entry::Ignored => m,
    }
}

/// The mesh that reading `lines` in order adds to `m`, coordinates kept as their words.
pub open spec fn load(m: MeshModel<Words, Words>, lines: Seq<Seq<char>>) -> MeshModel<
    Words,
    Words,
>
    decreases lines.len(),
{
    if lines.len() == 0 {
        m
    } else {
        apply_entry(load(m, lines.drop_last()), line_entry(lines.last()))
    }
}

impl<P, Q> Mesh<P, Q> {
    pub fn new() -> (r: Self)
        ensures
            r@ == empty_mesh::<P, Q>(),
    {
        let r = Mesh {
            vertices: Vec::new(),
            normals: Vec::new(),
            texcoords: Vec::new(),
            faces: Vec::new(),
            materials: Vec::new(),
            mtllibs: Vec::new(),
            objects: Vec::new(),
            groups: Vec::new(),
        };
        assert(r@.faces =~= Seq::<FaceModel>::empty());
        assert(r@.materials =~= Seq::<Seq<char>>::empty());
        assert(r@.mtllibs =~= Seq::<Seq<char>>::empty());
        assert(r@.objects =~= Seq::<Seq<char>>::empty());
        assert(r@.groups =~= Seq::<Seq<char>>::empty());
        r
    }

    /// Appends an element to the list it belongs to; an ignored line changes nothing.
    pub fn apply(&mut self, e: Element<P, Q>)
        ensures
            final(self)@ == apply_entry(old(self)@, e@),
    {
        let ghost before = old(self)@;
        match e {
            Element::Vertex(p) => {
                self.vertices.push(p);
            },
            Element::Normal(p) => {
                self.normals.push(p);
            },
            Element::TexCoord(q) => {
                self.texcoords.push(q);
            },
            Element::Face(f) => {
                let ghost fv = f@;
                self.faces.push(f);
                assert(self@.faces =~= before.faces.push(fv));
            },
            Element::Material(s) => {
                let ghost sv = s@;
                self.materials.push(s);
                assert(self@.materials =~= before.materials.push(sv));
            },
            Element::MaterialLib(s) => {
                let ghost sv = s@;
                self.mtllibs.push(s);
                assert(self@.mtllibs =~= before.mtllibs.push(sv));
            },
            Element::Object(s) => {
                let ghost sv = s@;
                self.objects.push(s);
                assert(self@.objects =~= before.objects.push(sv));
            },
            Element::Group(s) => {
                let ghost sv = s@;
                self.groups.push(s);
                assert(self@.groups =~= before.groups.push(sv));
            },
            Element::Ignored => {},
        }
    }

    /// The material names in use, each once.
    pub fn distinct_materials(&self) -> (r: Vec<String>)
        ensures
            names(r@).no_duplicates(),
            names(r@).to_set() == self@.materials.to_set(),
    {
        let ghost all = self@.materials;
        let mut out: Vec<String> = Vec::new();
        let mut j: usize = 0;
        while j < self.materials.len()
            invariant
                all == names(self.materials@),
                j <= self.materials@.len(),
                names(out@).no_duplicates(),
                names(out@).to_set() == all.subrange(0, j as int).to_set(),
            decreases self.materials@.len() - j,
        {
            let m = &self.materials[j];
            let mut found = false;
            let mut i: usize = 0;
            while i < out.len()
                invariant
                    0 <= i <= out@.len(),
                    found <==> exists|k: int| 0 <= k < i && (#[trigger] out@[k])@ == m@,
                decreases out@.len() - i,
            {
                if same_text(out[i].as_str(), m.as_str()) {
                    found = true;
                }
                i = i + 1;
            }
            let ghost old_out = names(out@);
            assert(all[j as int] == m@);
            assert(all.subrange(0, j + 1) =~= all.subrange(0, j as int).push(m@));
            proof {
                all.subrange(0, j as int).lemma_push_to_set_commute(m@);
            }
            if !found {
                out.push(m.clone());
                assert(names(out@) =~= old_out.push(m@));
                proof {
                    old_out.lemma_push_to_set_commute(m@);
                }
                assert forall|a: int, b: int|
                    0 <= a < b < names(out@).len() implies names(out@)[a] != names(out@)[b] by {
                    if b == old_out.len() {
                        assert(names(out@)[a] == out@[a]@);
                    }
                }
            } else {
                proof {
                    let k = choose|k: int| 0 <= k < out@.len() && (#[trigger] out@[k])@ == m@;
                    assert(old_out[k] == m@);
                    assert(old_out.to_set().contains(m@));
                    assert(old_out.to_set().insert(m@) =~= old_out.to_set());
                }
            }
            j = j + 1;
        }
        assert(all.subrange(0, j as int) == all);
        out
    }
}

/// The mesh with its coordinate words read as text.
pub open spec fn text_mesh<'a>(m: MeshModel<Vec<&'a str>, Vec<&'a str>>) -> MeshModel<
    Words,
    Words,
> {
    MeshModel {
        vertices: m.vertices.map_values(|c: Vec<&'a str>| texts(c@)),
        normals: m.normals.map_values(|c: Vec<&'a str>| texts(c@)),
        texcoords: m.texcoords.map_values(|c: Vec<&'a str>| texts(c@)),
        faces: m.faces,
        materials: m.materials,
        mtllibs: m.mtllibs,
        objects: m.objects,
        groups: m.groups,
    }
}

proof fn lemma_text_mesh_apply<'a>(
    m: MeshModel<Vec<&'a str>, Vec<&'a str>>,
    e: Entry<Vec<&'a str>, Vec<&'a str>>,
)
    ensures
        text_mesh(apply_entry(m, e)) == apply_entry(text_mesh(m), text_entry(e)),
{
    match e {
        Entry::Vertex(p) => {
            assert(text_mesh(apply_entry(m, e)).vertices =~= text_mesh(m).vertices.push(
                texts(p@),
            ));
        },
        Entry::Normal(p) => {
            assert(text_mesh(apply_entry(m, e)).normals =~= text_mesh(m).normals.push(
                texts(p@),
            ));
        },
        Entry::TexCoord(q) => {
            assert(text_mesh(apply_entry(m, e)).texcoords =~= text_mesh(m).texcoords.push(
                texts(q@),
            ));
        },
        _ => {},
    }
}

/// The texts of a list of lines.
pub open spec fn line_texts(lines: Seq<String>) -> Seq<Seq<char>> {
    lines.map_values(|l: String| l@)
}

/// Reads the lines of an OBJ file, in order, into a new mesh. Coordinates are handed
/// back as their words, for the caller to read as numbers.
pub fn load_lines<'a>(lines: &'a [String]) -> (r: Mesh<Vec<&'a str>, Vec<&'a str>>)
    ensures
        text_mesh(r@) == load(empty_mesh(), line_texts(lines@)),
{
    let ghost all = line_texts(lines@);
    let mut mesh: Mesh<Vec<&'a str>, Vec<&'a str>> = Mesh::new();
    assert(text_mesh(mesh@).vertices =~= Seq::<Words>::empty());
    assert(text_mesh(mesh@).normals =~= Seq::<Words>::empty());
    assert(text_mesh(mesh@).texcoords =~= Seq::<Words>::empty());
    assert(all.subrange(0, 0) =~= Seq::<Seq<char>>::empty());
    let mut i: usize = 0;
    while i < lines.len()
        invariant
            all == line_texts(lines@),
            i <= lines@.len(),
            text_mesh(mesh@) == load(empty_mesh(), all.subrange(0, i as int)),
        decreases lines@.len() - i,
    {
        let e = parse_line(lines[i].as_str());
        proof {
            lemma_text_mesh_apply(mesh@, e@);
        }
        mesh.apply(e);
        assert(all.subrange(0, i + 1).drop_last() == all.subrange(0, i as int));
        assert(all.subrange(0, i + 1).last() == lines@[i as int]@);
        i = i + 1;
    }
    assert(all.subrange(0, i as int) == all);
    mesh
}

proof fn lemma_ignored_lines_keep_mesh(m: MeshModel<Words, Words>, lines: Seq<Seq<char>>)
    requires
        forall|i: int| 0 <= i < lines.len() ==> #[trigger] line_entry(lines[i]) == Entry::<
            Words,
            Words,
        >::Ignored,
    ensures
        load(m, lines) == m,
    decreases lines.len(),
{
    if lines.len() > 0 {
        let init = lines.drop_last();
        assert forall|i: int| 0 <= i < init.len() implies #[trigger] line_entry(init[i])
            == Entry::<Words, Words>::Ignored by {
            assert(init[i] == lines[i]);
        }
        lemma_ignored_lines_keep_mesh(m, init);
        assert(line_entry(lines[lines.len() - 1]) == Entry::<Words, Words>::Ignored);
    }
}

/// Blank lines and comment lines contribute nothing: a file made of them alone gives a
/// mesh whose eight lists are all empty.
pub proof fn lemma_comments_and_blanks_give_empty_mesh(lines: Seq<Seq<char>>)
    requires
        forall|i: int| 0 <= i < lines.len() ==> is_blank(#[trigger] lines[i]) || is_comment(
            lines[i],
        ),
    ensures
        load(empty_mesh(), lines) == empty_mesh::<Words, Words>(),
{
    assert forall|i: int| 0 <= i < lines.len() implies #[trigger] line_entry(lines[i])
        == Entry::<Words, Words>::Ignored by {
        let l = lines[i];
        if is_blank(l) {
            lemma_blank_has_no_words(l);
        } else {
            let k = choose|k: int|
                0 <= k < l.len() && l[k] == '#' && forall|j: int|
                    0 <= j < k ==> is_space(#[trigger] l[j]);
            lemma_comment_first_word(l, k);
        }
    }
    lemma_ignored_lines_keep_mesh(empty_mesh(), lines);
}

/// A line whose keyword is none that the reader knows changes nothing, wherever it is
/// inserted among the other lines.
pub proof fn lemma_unknown_line_changes_nothing(
    m: MeshModel<Words, Words>,
    lines: Seq<Seq<char>>,
    k: int,
    unknown: Seq<char>,
)
    requires
        0 <= k <= lines.len(),
        words(unknown).len() > 0,
        !is_keyword(words(unknown)[0]),
    ensures
        load(m, lines.insert(k, unknown)) == load(m, lines),
    decreases lines.len(),
{
    assert(line_entry(unknown) == Entry::<Words, Words>::Ignored);
    let longer = lines.insert(k, unknown);
    if k == lines.len() {
        assert(longer.drop_last() =~= lines);
    } else {
        lemma_unknown_line_changes_nothing(m, lines.drop_last(), k, unknown);
        assert(longer.drop_last() =~= lines.drop_last().insert(k, unknown));
        assert(longer.last() == lines.last());
    }
}

} // verus!
