use vstd::prelude::*;

verus! {

/// A triangle mesh: vertices of any type `V`, and faces given as triples
/// of 0-based vertex indices, each of which names a stored vertex.
#[derive(Debug)]
pub struct Geometry<V> {
    verts: Vec<V>,
    faces: Vec<[usize; 3]>,
}

/// Every index of every face names one of `n` vertices.
pub open spec fn faces_within(faces: Seq<[usize; 3]>, n: int) -> bool {
    forall|f: int, c: int| 0 <= f < faces.len() && 0 <= c < 3 ==> #[trigger] faces[f]@[c] < n
}

impl<V> Geometry<V> {
    /// The vertices, in the order given.
    pub closed spec fn verts_view(&self) -> Seq<V> {
        self.verts@
    }

    /// The faces, in the order given.
    pub closed spec fn faces_view(&self) -> Seq<[usize; 3]> {
        self.faces@
    }

    /// Every face names stored vertices; construction establishes it.
    #[verifier::type_invariant]
    spec fn inv(&self) -> bool {
        faces_within(self.faces@, self.verts@.len() as int)
    }

    /// Builds a mesh from parsed vertex and face lists, or `None` when a
    /// face names a vertex that is not there.
    pub fn new(verts: Vec<V>, faces: Vec<[usize; 3]>) -> (r: Option<Geometry<V>>)
        ensures
            r.is_some() <==> faces_within(faces@, verts@.len() as int),
            r matches Some(g) ==> g.verts_view() == verts@ && g.faces_view() == faces@,
    {
        let n = verts.len();
        let mut f: usize = 0;
        while f < faces.len()
            invariant
                n == verts@.len(),
                f <= faces@.len(),
                faces_within(faces@.subrange(0, f as int), n as int),
            decreases faces@.len() - f,
        {
            let face = faces[f];
            if face[0] >= n || face[1] >= n || face[2] >= n {
                proof {
                    let c: int = if face[0] >= n { 0 } else if face[1] >= n { 1 } else { 2 };
                    assert(faces@[f as int]@[c] >= n);
                }
                return None;
            }
            proof {
                let s = faces@.subrange(0, f as int + 1);
                assert forall|g: int, c: int| 0 <= g < s.len() && 0 <= c < 3 implies #[trigger] s[g]@[c] < n by {
                    if g < f {
                        assert(s[g] == faces@.subrange(0, f as int)[g]);
                    }
                }
            }
            f = f + 1;
        }
        assert(faces@.subrange(0, faces@.len() as int) == faces@);
        Some(Geometry { verts, faces })
    }

    /// Number of vertices.
    pub fn num_verts(&self) -> (r: usize)
        ensures
            r == self.verts_view().len(),
    {
        self.verts.len()
    }

    /// Number of faces.
    pub fn num_faces(&self) -> (r: usize)
        ensures
            r == self.faces_view().len(),
    {
        self.faces.len()
    }

    /// The vertex at index `i`.
    pub fn point(&self, i: usize) -> (r: &V)
        requires
            i < self.verts_view().len(),
        ensures
            *r == self.verts_view()[i as int],
    {
        &self.verts[i]
    }

    /// The vertex indices of face `f`.
    pub fn face(&self, f: usize) -> (r: [usize; 3])
        requires
            f < self.faces_view().len(),
        ensures
            r == self.faces_view()[f as int],
    {
        self.faces[f]
    }

    /// The three corners of face `f`.
    pub fn triangle(&self, f: usize) -> (r: (&V, &V, &V))
        requires
            f < self.faces_view().len(),
        ensures
            *r.0 == self.verts_view()[self.faces_view()[f as int]@[0] as int],
            *r.1 == self.verts_view()[self.faces_view()[f as int]@[1] as int],
            *r.2 == self.verts_view()[self.faces_view()[f as int]@[2] as int],
    {
        let face = self.faces[f];
        proof {
            use_type_invariant(self);
            assert(self.faces@[f as int]@[0] < self.verts@.len());
            assert(self.faces@[f as int]@[1] < self.verts@.len());
            assert(self.faces@[f as int]@[2] < self.verts@.len());
        }
        (&self.verts[face[0]], &self.verts[face[1]], &self.verts[face[2]])
    }
}

} // verus!

verus! {

/// Whether `b` is an ASCII decimal digit.
pub open spec fn is_digit(b: u8) -> bool {
    48 <= b <= 57
}

/// Value of the decimal digits `s`, most significant first.
pub open spec fn digits_value(s: Seq<u8>) -> nat
    decreases s.len(),
{
    if s.len() == 0 {
        0
    } else {
        digits_value(s.drop_last()) * 10 + (s.last() - 48) as nat
    }
}

/// Whether every byte of `s` is a decimal digit.
pub open spec fn all_digits(s: Seq<u8>) -> bool {
    forall|k: int| 0 <= k < s.len() ==> is_digit(#[trigger] s[k])
}

/// The digits of an index field: the field without a leading `+`.
pub open spec fn index_digits(s: Seq<u8>) -> Seq<u8> {
    if s.len() > 0 && s[0] == 43 {
        s.drop_first()
    } else {
        s
    }
}

/// The unsigned number that a mesh-file field writes in decimal (an
/// optional `+`, then one or more digits), or `None` when it writes none
/// or one that does not fit in a `usize`.
pub open spec fn field_index(s: Seq<u8>) -> Option<nat> {
    let d = index_digits(s);
    if d.len() > 0 && all_digits(d) && digits_value(d) <= usize::MAX {
        Some(digits_value(d))
    } else {
        None
    }
}

/// The numbers that the fields write, in order, skipping the fields that
/// write none.
pub open spec fn field_indices(fields: Seq<Seq<u8>>) -> Seq<nat>
    decreases fields.len(),
{
    if fields.len() == 0 {
        seq![]
    } else {
        let p = field_indices(fields.drop_last());
        match field_index(fields.last()) {
            Some(v) => p.push(v),
            None => p,
        }
    }
}

/// The face that the fields after an `f` key describe: the first three
/// numbers among them, which count vertices from 1, turned into 0-based
/// indices; `None` when there are fewer than three, or one of them is 0.
pub open spec fn face_of(fields: Seq<Seq<u8>>) -> Option<[usize; 3]> {
    let v = field_indices(fields);
    if v.len() >= 3 && v[0] > 0 && v[1] > 0 && v[2] > 0 {
        Some([(v[0] - 1) as usize, (v[1] - 1) as usize, (v[2] - 1) as usize])
    } else {
        None
    }
}

proof fn lemma_digits_value_monotone(s: Seq<u8>, i: int)
    requires
        0 <= i <= s.len(),
    ensures
        digits_value(s.subrange(0, i)) <= digits_value(s),
    decreases s.len() - i,
{
    if i < s.len() {
        lemma_digits_value_monotone(s, i + 1);
        assert(s.subrange(0, i + 1).drop_last() == s.subrange(0, i));
    } else {
        assert(s.subrange(0, i) == s);
    }
}

/// Reads one field of a mesh file as an unsigned decimal number.
pub fn parse_index(s: &Vec<u8>) -> (r: Option<usize>)
    ensures
        r matches Some(v) ==> field_index(s@) == Some(v as nat),
        r is None <==> field_index(s@) is None,
{
    let start: usize = if s.len() > 0 && s[0] == 43 {
        1
    } else {
        0
    };
    let ghost d = index_digits(s@);
    assert(d == s@.subrange(start as int, s@.len() as int));
    if start >= s.len() {
        return None;
    }
    let mut acc: usize = 0;
    let mut i: usize = start;
    while i < s.len()
        invariant
            start <= i <= s@.len(),
            d == index_digits(s@),
            d == s@.subrange(start as int, s@.len() as int),
            forall|k: int| 0 <= k < i - start ==> is_digit(#[trigger] d[k]),
            acc as nat == digits_value(d.subrange(0, i - start)),
        decreases s@.len() - i,
    {
        let b = s[i];
        if b < 48 || b > 57 {
            assert(!is_digit(d[i - start]));
            return None;
        }
        let ghost pre = d.subrange(0, i - start);
        let ghost next = d.subrange(0, i - start + 1);
        assert(next.drop_last() == pre);
        assert(next.last() == b);
        match acc.checked_mul(10) {
            Some(m) => match m.checked_add((b - 48) as usize) {
                Some(a) => {
                    acc = a;
                },
                None => {
                    proof {
                        lemma_digits_value_monotone(d, i - start + 1);
                    }
                    return None;
                },
            },
            None => {
                proof {
                    lemma_digits_value_monotone(d, i - start + 1);
                }
                return None;
            },
        }
        i = i + 1;
    }
    assert(d.subrange(0, d.len() as int) == d);
    Some(acc)
}

/// Reads the face that the fields after an `f` key of a mesh file
/// describe (see `face_of`).
pub fn parse_face(fields: &Vec<Vec<u8>>) -> (r: Option<[usize; 3]>)
    ensures
        r == face_of(fields@.map_values(|f: Vec<u8>| f@)),
{
    let ghost fs = fields@.map_values(|f: Vec<u8>| f@);
    let mut found: Vec<usize> = Vec::new();
    let mut i: usize = 0;
    while i < fields.len()
        invariant
            i <= fields@.len(),
            fs == fields@.map_values(|f: Vec<u8>| f@),
            found@.len() == field_indices(fs.subrange(0, i as int)).len(),
            forall|k: int|
                0 <= k < found@.len() ==> found@[k] as nat == #[trigger] field_indices(
                    fs.subrange(0, i as int),
                )[k],
        decreases fields@.len() - i,
    {
        assert(fs.subrange(0, i as int + 1).drop_last() == fs.subrange(0, i as int));
        assert(fs.subrange(0, i as int + 1).last() == fields@[i as int]@);
        match parse_index(&fields[i]) {
            Some(v) => {
                found.push(v);
            },
            None => {},
        }
        i = i + 1;
    }
    assert(fs.subrange(0, fs.len() as int) == fs);
    if found.len() >= 3 && found[0] > 0 && found[1] > 0 && found[2] > 0 {
        Some([found[0] - 1, found[1] - 1, found[2] - 1])
    } else {
        None
    }
}

} // verus!

verus! {

/// The fields of `s` between single spaces, in order: `n` spaces make
/// `n + 1` fields, empty ones included.
pub open spec fn space_fields(s: Seq<u8>) -> Seq<Seq<u8>>
    decreases s.len(),
{
    if s.len() == 0 {
        seq![seq![]]
    } else {
        let f = space_fields(s.drop_last());
        if s.last() == 32 {
            f.push(seq![])
        } else {
            f.update(f.len() - 1, f.last().push(s.last()))
        }
    }
}

proof fn lemma_space_fields_nonempty(s: Seq<u8>)
    ensures
        space_fields(s).len() >= 1,
    decreases s.len(),
{
    if s.len() > 0 {
        lemma_space_fields_nonempty(s.drop_last());
    }
}

/// Splits a line of a mesh file into its space-separated fields.
pub fn split_fields(line: &Vec<u8>) -> (r: Vec<Vec<u8>>)
    ensures
        r@.map_values(|f: Vec<u8>| f@) == space_fields(line@),
{
    let mut done: Vec<Vec<u8>> = Vec::new();
    let mut cur: Vec<u8> = Vec::new();
    let mut i: usize = 0;
    while i < line.len()
        invariant
            i <= line@.len(),
            done@.map_values(|f: Vec<u8>| f@).push(cur@) == space_fields(line@.subrange(0, i as int)),
        decreases line@.len() - i,
    {
        let b = line[i];
        let ghost pre = line@.subrange(0, i as int);
        let ghost next = line@.subrange(0, i as int + 1);
        assert(next.drop_last() == pre);
        assert(next.last() == b);
        let ghost before = done@.map_values(|f: Vec<u8>| f@);
        let ghost old_cur = cur@;
        if b == 32 {
            done.push(cur);
            assert(done@.map_values(|f: Vec<u8>| f@) =~= before.push(old_cur));
            cur = Vec::new();
            assert(done@.map_values(|f: Vec<u8>| f@).push(cur@) =~= space_fields(next));
        } else {
            cur.push(b);
            assert(before.push(old_cur).update(before.len() as int, old_cur.push(b)) =~= before.push(cur@));
        }
        i = i + 1;
    }
    assert(line@.subrange(0, line@.len() as int) == line@);
    let ghost before = done@.map_values(|f: Vec<u8>| f@);
    let ghost last = cur@;
    done.push(cur);
    assert(done@.map_values(|f: Vec<u8>| f@) =~= before.push(last));
    done
}

} // verus!

verus! {

/// A line of a mesh file, by its first field.
#[derive(Debug, PartialEq)]
pub enum ObjLine {
    /// A `v` line: the fields after the key, which write the coordinates.
    Vertex(Vec<Vec<u8>>),
    /// An `f` line: the face it describes, if it describes one.
    Face(Option<[usize; 3]>),
    /// Any other line, which the mesh does not use.
    Other,
}

/// The first field `v`.
pub open spec fn is_vertex_key(s: Seq<u8>) -> bool {
    s == seq![118u8]
}

/// The first field `f`.
pub open spec fn is_face_key(s: Seq<u8>) -> bool {
    s == seq![102u8]
}

/// Reads one line of a mesh file.
pub fn parse_obj_line(line: &Vec<u8>) -> (r: ObjLine)
    ensures
        ({
            let fs = space_fields(line@);
            &&& is_vertex_key(fs[0]) ==> (r matches ObjLine::Vertex(v) && v@.map_values(
                |f: Vec<u8>| f@,
            ) == fs.drop_first())
            &&& is_face_key(fs[0]) ==> r == ObjLine::Face(face_of(fs.drop_first()))
            &&& !is_vertex_key(fs[0]) && !is_face_key(fs[0]) ==> r == ObjLine::Other
        }),
{
    let mut fields = split_fields(line);
    let ghost fs = space_fields(line@);
    proof {
        lemma_space_fields_nonempty(line@);
    }
    let key = fields.remove(0);
    assert(key@ == fs[0]);
    assert(fields@.map_values(|f: Vec<u8>| f@) =~= fs.drop_first());
    if key.len() == 1 && key[0] == 118 {
        assert(key@ =~= seq![118u8]);
        ObjLine::Vertex(fields)
    } else if key.len() == 1 && key[0] == 102 {
        assert(key@ =~= seq![102u8]);
        ObjLine::Face(parse_face(&fields))
    } else {
        ObjLine::Other
    }
}

} // verus!
