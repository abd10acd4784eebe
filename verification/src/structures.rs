//! The mesh data model and the mesh-file loader.
//!
//! The file format is line-oriented, tokens space-separated: `o <name>`,
//! `v <x> <y> <z>`, `vn <x> <y> <z>`, and `f <v>//<n> <v>//<n> <v>//<n>`
//! with 1-based indices; any other leading token is ignored. Coordinates
//! are validated against the floating-point grammar and kept as the
//! tokens themselves — the unverified driver reads them as machine floats
//! when it builds its transform matrices, so this library never holds a
//! float. Face indices are converted to 0-based here, and a face keeps
//! only the normal named by its final vertex token (a quirk of the
//! consumed format that is preserved deliberately).
//!
//! A load either yields a fully validated mesh or fails on the first bad
//! line with the line's 1-based number and the reason; no partial mesh
//! is ever returned.

use vstd::prelude::*;
use vstd::string::*;
use crate::text::{
    spec_split, spec_split_dslash, is_float_token, is_index_token, index_token_val, split_spaces,
    split_dslash, is_float, parse_index,
};

verus! {

/// Three coordinates of a position or direction, each kept as its
/// validated numeric token.
pub struct Coord3 {
    pub x: String,
    pub y: String,
    pub z: String,
}

/// The mathematical value of a `Coord3`: its three token strings.
pub ghost struct Coord3V {
    pub x: Seq<char>,
    pub y: Seq<char>,
    pub z: Seq<char>,
}

impl View for Coord3 {
    type V = Coord3V;

    open spec fn view(&self) -> Coord3V {
        Coord3V { x: self.x@, y: self.y@, z: self.z@ }
    }
}

impl Coord3 {
    /// A copy with the same tokens.
    pub fn duplicate(&self) -> (r: Coord3)
        ensures
            r@ == self@,
    {
        Coord3 { x: self.x.clone(), y: self.y.clone(), z: self.z.clone() }
    }
}

/// A triangular face: three 0-based vertex indices and one resolved
/// normal (the one named by the face's final vertex token).
pub struct Face {
    pub vertices: [usize; 3],
    pub normal: Coord3,
}

/// The mathematical value of a `Face`.
pub ghost struct FaceV {
    pub vertices: Seq<int>,
    pub normal: Coord3V,
}

impl View for Face {
    type V = FaceV;

    open spec fn view(&self) -> FaceV {
        FaceV {
            vertices: seq![
                self.vertices[0] as int,
                self.vertices[1] as int,
                self.vertices[2] as int,
            ],
            normal: self.normal@,
        }
    }
}

/// A loaded mesh: an optional object name, the vertex positions, and the
/// triangular faces.
pub struct Mesh {
    pub name: String,
    pub vertices: Vec<Coord3>,
    pub faces: Vec<Face>,
}

/// The mathematical value of a `Mesh`.
pub ghost struct MeshV {
    pub name: Seq<char>,
    pub vertices: Seq<Coord3V>,
    pub faces: Seq<FaceV>,
}

/// The token views of a list of coordinate triples.
pub open spec fn coords_view(v: Seq<Coord3>) -> Seq<Coord3V> {
    v.map_values(|c: Coord3| c@)
}

/// The views of a list of faces.
pub open spec fn faces_view(v: Seq<Face>) -> Seq<FaceV> {
    v.map_values(|f: Face| f@)
}

impl View for Mesh {
    type V = MeshV;

    open spec fn view(&self) -> MeshV {
        MeshV {
            name: self.name@,
            vertices: coords_view(self.vertices@),
            faces: faces_view(self.faces@),
        }
    }
}

/// Why a mesh file line is malformed.
#[derive(Clone, Copy, Debug, PartialEq, Eq, Structural)]
pub enum FormatErrorKind {
    /// A record is missing a required field.
    MissingField,
    /// A coordinate field is not a valid floating-point token.
    BadNumber,
    /// A face record does not reference exactly 3 vertices.
    FaceArity,
    /// A face reference lacks its `//`-separated index pair.
    MissingIndexPair,
    /// A face index is not a valid unsigned decimal number.
    BadIndexNumber,
    /// A face index is outside the records read so far.
    IndexOutOfRange,
}

/// Why a mesh could not be loaded: the file could not be opened or read
/// (raised by the caller that does the I/O), or a line is malformed (the
/// 1-based line number and the reason).
#[derive(Clone, Copy, Debug, PartialEq, Eq, Structural)]
pub enum LoadError {
    Open,
    Format(usize, FormatErrorKind),
}

/// The loader's running state: the latest object name, the vertex and
/// normal triples read so far, and the faces built so far.
pub ghost struct LoadSt {
    pub name: Seq<char>,
    pub vertices: Seq<Coord3V>,
    pub normals: Seq<Coord3V>,
    pub faces: Seq<FaceV>,
}

/// The loader's starting state: everything empty.
pub open spec fn init_st() -> LoadSt {
    LoadSt {
        name: Seq::empty(),
        vertices: Seq::empty(),
        normals: Seq::empty(),
        faces: Seq::empty(),
    }
}

/// Checks one `v//n` face reference against the counts read so far:
/// it must split into at least two segments, each a valid index token,
/// each 1-based value within range. Yields the 0-based pair.
pub open spec fn pair_check(tok: Seq<char>, vcount: int, ncount: int) -> Result<
    (int, int),
    FormatErrorKind,
> {
    let parts = spec_split_dslash(tok);
    if parts.len() < 2 {
        Err(FormatErrorKind::MissingIndexPair)
    } else if !is_index_token(parts[0]) {
        Err(FormatErrorKind::BadIndexNumber)
    } else if index_token_val(parts[0]) < 1 || index_token_val(parts[0]) > vcount {
        Err(FormatErrorKind::IndexOutOfRange)
    } else if !is_index_token(parts[1]) {
        Err(FormatErrorKind::BadIndexNumber)
    } else if index_token_val(parts[1]) < 1 || index_token_val(parts[1]) > ncount {
        Err(FormatErrorKind::IndexOutOfRange)
    } else {
        Ok((index_token_val(parts[0]) - 1, index_token_val(parts[1]) - 1))
    }
}

/// One line of the load: dispatch on the leading token, validate the
/// record, and extend the state; unrecognized records leave the state
/// unchanged.
pub open spec fn line_step(st: LoadSt, line: Seq<char>) -> Result<LoadSt, FormatErrorKind> {
    let toks = spec_split(line, ' ');
    let t0 = toks[0];
    if t0 == seq!['o'] {
        if toks.len() < 2 {
            Err(FormatErrorKind::MissingField)
        } else {
            Ok(LoadSt { name: toks[1], ..st })
        }
    } else if t0 == seq!['v'] {
        if toks.len() < 4 {
            Err(FormatErrorKind::MissingField)
        } else if !(is_float_token(toks[1]) && is_float_token(toks[2]) && is_float_token(toks[3])) {
            Err(FormatErrorKind::BadNumber)
        } else {
            Ok(
                LoadSt {
                    vertices: st.vertices.push(Coord3V { x: toks[1], y: toks[2], z: toks[3] }),
                    ..st
                },
            )
        }
    } else if t0 == seq!['v', 'n'] {
        if toks.len() < 4 {
            Err(FormatErrorKind::MissingField)
        } else if !(is_float_token(toks[1]) && is_float_token(toks[2]) && is_float_token(toks[3])) {
            Err(FormatErrorKind::BadNumber)
        } else {
            Ok(
                LoadSt {
                    normals: st.normals.push(Coord3V { x: toks[1], y: toks[2], z: toks[3] }),
                    ..st
                },
            )
        }
    } else if t0 == seq!['f'] {
        if toks.len() != 4 {
            Err(FormatErrorKind::FaceArity)
        } else {
            match pair_check(toks[1], st.vertices.len() as int, st.normals.len() as int) {
                Err(k) => Err(k),
                Ok(p1) => match pair_check(
                    toks[2],
                    st.vertices.len() as int,
                    st.normals.len() as int,
                ) {
                    Err(k) => Err(k),
                    Ok(p2) => match pair_check(
                        toks[3],
                        st.vertices.len() as int,
                        st.normals.len() as int,
                    ) {
                        Err(k) => Err(k),
                        Ok(p3) => Ok(
                            LoadSt {
                                faces: st.faces.push(
                                    FaceV {
                                        vertices: seq![p1.0, p2.0, p3.0],
                                        normal: st.normals[p3.1],
                                    },
                                ),
                                ..st
                            },
                        ),
                    },
                },
            }
        }
    } else {
        Ok(st)
    }
}

/// The load from line `i` on: the first malformed line fails the whole
/// load with its 1-based number; otherwise the final state's name,
/// vertices and faces form the mesh (the normal list was temporary).
pub open spec fn load_rec(lines: Seq<Seq<char>>, i: int, st: LoadSt) -> Result<MeshV, LoadError>
    decreases lines.len() - i,
{
    if i < 0 || i >= lines.len() {
        Ok(MeshV { name: st.name, vertices: st.vertices, faces: st.faces })
    } else {
        match line_step(st, lines[i]) {
            Ok(st2) => load_rec(lines, i + 1, st2),
            Err(k) => Err(LoadError::Format((i + 1) as usize, k)),
        }
    }
}

/// The mesh (or error) a sequence of lines loads to.
pub open spec fn load_spec(lines: Seq<Seq<char>>) -> Result<MeshV, LoadError> {
    load_rec(lines, 0, init_st())
}

/// How many lines from `i` on lead with the token `t`.
pub open spec fn count_kind(lines: Seq<Seq<char>>, i: int, t: Seq<char>) -> int
    decreases lines.len() - i,
{
    if i < 0 || i >= lines.len() {
        0
    } else {
        (if spec_split(lines[i], ' ')[0] == t {
            1int
        } else {
            0int
        }) + count_kind(lines, i + 1, t)
    }
}

/// A face references exactly 3 vertices, all 0-based and in range.
pub open spec fn face_valid(f: FaceV, vcount: int) -> bool {
    f.vertices.len() == 3 && 0 <= f.vertices[0] < vcount && 0 <= f.vertices[1] < vcount && 0
        <= f.vertices[2] < vcount
}

/// Every face of the list is valid against a vertex count.
pub open spec fn faces_valid(fs: Seq<FaceV>, vcount: int) -> bool {
    forall|k: int| 0 <= k < fs.len() ==> face_valid(#[trigger] fs[k], vcount)
}

/// The load from line `i` on adds one vertex per `v` line and one face
/// per `f` line, and keeps every face valid against the final vertex
/// count.
proof fn lemma_load_rec_shape(lines: Seq<Seq<char>>, i: int, st: LoadSt)
    requires
        0 <= i <= lines.len(),
        faces_valid(st.faces, st.vertices.len() as int),
    ensures
        load_rec(lines, i, st) is Ok ==> ({
            let m = load_rec(lines, i, st)->Ok_0;
            &&& m.vertices.len() == st.vertices.len() + count_kind(lines, i, seq!['v'])
            &&& m.faces.len() == st.faces.len() + count_kind(lines, i, seq!['f'])
            &&& faces_valid(m.faces, m.vertices.len() as int)
        }),
    decreases lines.len() - i,
{
    if i >= lines.len() {
    } else {
        match line_step(st, lines[i]) {
            Err(_) => {},
            Ok(st2) => {
                let toks = spec_split(lines[i], ' ');
                let t0 = toks[0];
                assert(seq!['o'] != seq!['v'] && seq!['o'] != seq!['f']) by {
                    assert(seq!['o'][0] == 'o' && seq!['v'][0] == 'v' && seq!['f'][0] == 'f');
                }
                assert(seq!['v'] != seq!['f']) by {
                    assert(seq!['v'][0] == 'v' && seq!['f'][0] == 'f');
                }
                assert(seq!['v', 'n'] != seq!['v'] && seq!['v', 'n'] != seq!['f']) by {
                    assert(seq!['v', 'n'].len() == 2);
                }
                if t0 == seq!['v'] {
                    assert(st2.vertices.len() == st.vertices.len() + 1);
                    assert(st2.faces == st.faces);
                    assert(faces_valid(st2.faces, st2.vertices.len() as int)) by {
                        assert(forall|k: int|
                            0 <= k < st2.faces.len() ==> face_valid(
                                #[trigger] st2.faces[k],
                                st.vertices.len() as int,
                            ));
                    }
                } else if t0 == seq!['f'] {
                    assert(st2.vertices == st.vertices);
                    assert(st2.faces.len() == st.faces.len() + 1);
                    assert(faces_valid(st2.faces, st2.vertices.len() as int)) by {
                        assert(forall|k: int|
                            0 <= k < st.faces.len() ==> st2.faces[k] == #[trigger] st.faces[k]);
                        assert(face_valid(st2.faces[st.faces.len() as int], st.vertices.len() as int));
                    }
                } else {
                    assert(st2.vertices == st.vertices);
                    assert(st2.faces == st.faces);
                }
                lemma_load_rec_shape(lines, i + 1, st2);
            },
        }
    }
}

/// Law: a successful load of a file with N `v` lines and M `f` lines
/// yields exactly N vertices and M faces, each face holding exactly 3
/// vertex indices, converted to 0-based and all within `[0, N)`.
pub proof fn lemma_load_roundtrip(lines: Seq<Seq<char>>)
    ensures
        load_spec(lines) is Ok ==> ({
            let m = load_spec(lines)->Ok_0;
            &&& m.vertices.len() == count_kind(lines, 0, seq!['v'])
            &&& m.faces.len() == count_kind(lines, 0, seq!['f'])
            &&& faces_valid(m.faces, m.vertices.len() as int)
        }),
{
    lemma_load_rec_shape(lines, 0, init_st());
}

/// Whether a token is the one-character word `c`.
fn is_tok1(t: &String, c: char) -> (b: bool)
    ensures
        b == (t@ == seq![c]),
{
    let r = t.as_str().unicode_len() == 1 && t.as_str().get_char(0) == c;
    proof {
        if r {
            assert(t@ =~= seq![c]);
        } else {
            if t@ == seq![c] {
                assert(t@.len() == 1 && t@[0] == c);
            }
        }
    }
    r
}

/// Whether a token is the two-character word `c1 c2`.
fn is_tok2(t: &String, c1: char, c2: char) -> (b: bool)
    ensures
        b == (t@ == seq![c1, c2]),
{
    let r = t.as_str().unicode_len() == 2 && t.as_str().get_char(0) == c1 && t.as_str().get_char(1)
        == c2;
    proof {
        if r {
            assert(t@ =~= seq![c1, c2]);
        } else {
            if t@ == seq![c1, c2] {
                assert(t@.len() == 2 && t@[0] == c1 && t@[1] == c2);
            }
        }
    }
    r
}

/// Checks one `v//n` face reference as `pair_check` describes it.
fn pair_check_exec(tok: &String, vcount: usize, ncount: usize) -> (r: Result<
    (usize, usize),
    FormatErrorKind,
>)
    ensures
        match r {
            Ok(p) => pair_check(tok@, vcount as int, ncount as int) == Ok::<
                (int, int),
                FormatErrorKind,
            >((p.0 as int, p.1 as int)),
            Err(k) => pair_check(tok@, vcount as int, ncount as int) == Err::<
                (int, int),
                FormatErrorKind,
            >(k),
        },
{
    let parts = split_dslash(tok.as_str());
    let ghost sparts = spec_split_dslash(tok@);
    assert(parts@.len() == sparts.len());
    if parts.len() < 2 {
        return Err(FormatErrorKind::MissingIndexPair);
    }
    assert(parts@[0]@ == sparts[0]);
    assert(parts@[1]@ == sparts[1]);
    let v = match parse_index(parts[0].as_str()) {
        None => {
            return Err(FormatErrorKind::BadIndexNumber);
        },
        Some(v) => v,
    };
    if v < 1 || v > vcount {
        return Err(FormatErrorKind::IndexOutOfRange);
    }
    let n = match parse_index(parts[1].as_str()) {
        None => {
            return Err(FormatErrorKind::BadIndexNumber);
        },
        Some(n) => n,
    };
    if n < 1 || n > ncount {
        return Err(FormatErrorKind::IndexOutOfRange);
    }
    Ok((v - 1, n - 1))
}

impl Mesh {
    /// An empty mesh: no name, no vertices, no faces.
    pub fn new() -> (m: Mesh)
        ensures
            m@.name == Seq::<char>::empty(),
            m@.vertices == Seq::<Coord3V>::empty(),
            m@.faces == Seq::<FaceV>::empty(),
    {
        let m = Mesh { name: String::new(), vertices: Vec::new(), faces: Vec::new() };
        proof {
            assert(m@.vertices =~= Seq::<Coord3V>::empty());
            assert(m@.faces =~= Seq::<FaceV>::empty());
        }
        m
    }

    /// Loads a mesh from the lines of a mesh file: exactly the mesh that
    /// `load_spec` gives on these lines, or the error it gives on the
    /// first malformed line. Success is owed exactly when every line is
    /// well formed; no partial mesh is ever returned, and every face of
    /// a returned mesh indexes within its vertex list.
    pub fn from_lines(lines: &Vec<String>) -> (r: Result<Mesh, LoadError>)
        ensures
            match r {
                Ok(m) => load_spec(lines.deep_view()) == Ok::<MeshV, LoadError>(m@),
                Err(e) => load_spec(lines.deep_view()) == Err::<MeshV, LoadError>(e),
            },
            r is Ok ==> faces_valid(r->Ok_0@.faces, r->Ok_0@.vertices.len() as int),
    {
        proof {
            lemma_load_roundtrip(lines.deep_view());
        }
        let ghost ls = lines.deep_view();
        let mut name: String = String::new();
        let mut vertices: Vec<Coord3> = Vec::new();
        let mut normals: Vec<Coord3> = Vec::new();
        let mut faces: Vec<Face> = Vec::new();
        let mut i: usize = 0;
        proof {
            assert(coords_view(vertices@) =~= Seq::<Coord3V>::empty());
            assert(coords_view(normals@) =~= Seq::<Coord3V>::empty());
            assert(faces_view(faces@) =~= Seq::<FaceV>::empty());
        }
        while i < lines.len()
            invariant
                i <= lines.len(),
                ls == lines.deep_view(),
                load_rec(
                    ls,
                    i as int,
                    LoadSt {
                        name: name@,
                        vertices: coords_view(vertices@),
                        normals: coords_view(normals@),
                        faces: faces_view(faces@),
                    },
                ) == load_spec(ls),
            decreases lines.len() - i,
        {
            let ghost st = LoadSt {
                name: name@,
                vertices: coords_view(vertices@),
                normals: coords_view(normals@),
                faces: faces_view(faces@),
            };
            assert(ls[i as int] == lines@[i as int]@);
            let toks = split_spaces(lines[i].as_str());
            let ghost stoks = spec_split(ls[i as int], ' ');
            assert(toks@.map_values(|t: String| t@) == stoks);
            assert(toks@.len() == stoks.len());
            assert(stoks.len() >= 1) by {
                crate::text::lemma_split_nonempty(ls[i as int], ' ');
            }
            assert(toks@[0]@ == stoks[0]);
            let mut st_err: Option<FormatErrorKind> = None;
            if is_tok1(&toks[0], 'o') {
                if toks.len() < 2 {
                    st_err = Some(FormatErrorKind::MissingField);
                } else {
                    assert(toks@[1]@ == stoks[1]);
                    name = toks[1].clone();
                }
            } else if is_tok1(&toks[0], 'v') {
                if toks.len() < 4 {
                    st_err = Some(FormatErrorKind::MissingField);
                } else {
                    assert(toks@[1]@ == stoks[1]);
                    assert(toks@[2]@ == stoks[2]);
                    assert(toks@[3]@ == stoks[3]);
                    if is_float(toks[1].as_str()) && is_float(toks[2].as_str()) && is_float(
                        toks[3].as_str(),
                    ) {
                        let ghost before = vertices@;
                        vertices.push(
                            Coord3 {
                                x: toks[1].clone(),
                                y: toks[2].clone(),
                                z: toks[3].clone(),
                            },
                        );
                        proof {
                            assert(coords_view(vertices@) =~= coords_view(before).push(
                                Coord3V { x: stoks[1], y: stoks[2], z: stoks[3] },
                            ));
                        }
                    } else {
                        st_err = Some(FormatErrorKind::BadNumber);
                    }
                }
            } else if is_tok2(&toks[0], 'v', 'n') {
                if toks.len() < 4 {
                    st_err = Some(FormatErrorKind::MissingField);
                } else {
                    assert(toks@[1]@ == stoks[1]);
                    assert(toks@[2]@ == stoks[2]);
                    assert(toks@[3]@ == stoks[3]);
                    if is_float(toks[1].as_str()) && is_float(toks[2].as_str()) && is_float(
                        toks[3].as_str(),
                    ) {
                        let ghost before = normals@;
                        normals.push(
                            Coord3 {
                                x: toks[1].clone(),
                                y: toks[2].clone(),
                                z: toks[3].clone(),
                            },
                        );
                        proof {
                            assert(coords_view(normals@) =~= coords_view(before).push(
                                Coord3V { x: stoks[1], y: stoks[2], z: stoks[3] },
                            ));
                        }
                    } else {
                        st_err = Some(FormatErrorKind::BadNumber);
                    }
                }
            } else if is_tok1(&toks[0], 'f') {
                if toks.len() != 4 {
                    st_err = Some(FormatErrorKind::FaceArity);
                } else {
                    assert(toks@[1]@ == stoks[1]);
                    assert(toks@[2]@ == stoks[2]);
                    assert(toks@[3]@ == stoks[3]);
                    match pair_check_exec(&toks[1], vertices.len(), normals.len()) {
                        Err(k) => {
                            st_err = Some(k);
                        },
                        Ok(p1) => match pair_check_exec(&toks[2], vertices.len(), normals.len()) {
                            Err(k) => {
                                st_err = Some(k);
                            },
                            Ok(p2) => match pair_check_exec(
                                &toks[3],
                                vertices.len(),
                                normals.len(),
                            ) {
                                Err(k) => {
                                    st_err = Some(k);
                                },
                                Ok(p3) => {
                                    let ghost before = faces@;
                                    let nrm = normals[p3.1].duplicate();
                                    faces.push(
                                        Face { vertices: [p1.0, p2.0, p3.0], normal: nrm },
                                    );
                                    proof {
                                        assert(faces_view(faces@) =~= faces_view(before).push(
                                            FaceV {
                                                vertices: seq![
                                                    p1.0 as int,
                                                    p2.0 as int,
                                                    p3.0 as int,
                                                ],
                                                normal: st.normals[p3.1 as int],
                                            },
                                        ));
                                    }
                                },
                            },
                        },
                    }
                }
            }
            let ghost st2 = LoadSt {
                name: name@,
                vertices: coords_view(vertices@),
                normals: coords_view(normals@),
                faces: faces_view(faces@),
            };
            match st_err {
                Some(k) => {
                    proof {
                        assert(line_step(st, ls[i as int]) == Err::<LoadSt, FormatErrorKind>(k));
                        assert(load_rec(ls, i as int, st) == Err::<MeshV, LoadError>(
                            LoadError::Format((i + 1) as usize, k),
                        ));
                    }
                    return Err(LoadError::Format(i + 1, k));
                },
                None => {
                    proof {
                        assert(line_step(st, ls[i as int]) == Ok::<LoadSt, FormatErrorKind>(st2));
                        assert(load_rec(ls, i as int, st) == load_rec(ls, i as int + 1, st2));
                    }
                },
            }
            i = i + 1;
        }
        let m = Mesh { name, vertices, faces };
        proof {
            assert(load_rec(
                ls,
                i as int,
                LoadSt {
                    name: m.name@,
                    vertices: coords_view(m.vertices@),
                    normals: coords_view(normals@),
                    faces: faces_view(m.faces@),
                },
            ) == Ok::<MeshV, LoadError>(m@));
        }
        Ok(m)
    }
}

} // verus!
