use vstd::prelude::*;
use crate::math::{Vec2, Vec3, Vec4};

verus! {

/// Failures while reading a mesh description.
#[derive(Debug)]
pub enum ParseError {
    IOError(String),
    Internal(String),
}

/// Mesh data as the rest of the engine consumes it: positions, normals and
/// flat triangle indices, all fixed-point.
#[derive(Debug)]
pub struct Data {
    pub vertices: Vec<Vec4>,
    pub text_cords: Vec<Vec2>,
    pub normals: Vec<Vec3>,
    pub indices: Vec<u32>,
}

/// A mesh representation that can be assembled from parsed [`Data`].
pub trait Obj: Sized {
    fn from(data: Data) -> Self;
}

/// A mesh without texture coordinates.
#[derive(Debug)]
pub struct NormalObj {
    pub vertices: Vec<Vec4>,
    pub normals: Vec<Vec3>,
    pub indices: Vec<u32>,
}

/// A mesh with texture coordinates.
#[derive(Debug)]
pub struct TexturedObj {
    pub vertices: Vec<Vec4>,
    pub normals: Vec<Vec3>,
    pub text_cords: Vec<Vec2>,
    pub indices: Vec<u32>,
}

impl Obj for NormalObj {
    fn from(data: Data) -> Self {
        NormalObj { vertices: data.vertices, normals: data.normals, indices: data.indices }
    }
}

impl Obj for TexturedObj {
    fn from(data: Data) -> Self {
        TexturedObj {
            vertices: data.vertices,
            normals: data.normals,
            text_cords: data.text_cords,
            indices: data.indices,
        }
    }
}

/// ASCII whitespace, as the token separator of a mesh file line. Mesh
/// files are ASCII, so the Unicode-only space characters never occur.
pub open spec fn is_space(b: u8) -> bool {
    b == 32 || b == 9 || b == 10 || b == 11 || b == 12 || b == 13
}

/// Exec twin of [`is_space`].
fn is_space_byte(b: u8) -> (r: bool)
    ensures
        r == is_space(b),
{
    b == 32 || b == 9 || b == 10 || b == 11 || b == 12 || b == 13
}

/// The views of a list of byte strings, element by element.
pub open spec fn line_views(v: Seq<Vec<u8>>) -> Seq<Seq<u8>> {
    v.map_values(|x: Vec<u8>| x@)
}

/// The views of a list of lexed statements, element by element.
pub open spec fn statement_views(v: Seq<(Vec<u8>, Vec<Vec<u8>>)>) -> Seq<(Seq<u8>, Seq<Seq<u8>>)> {
    v.map_values(|p: (Vec<u8>, Vec<Vec<u8>>)| (p.0@, line_views(p.1@)))
}

/// The tokens of `s` from position `i` on, given the partial word `cur` and
/// the tokens `acc` found so far: a token is a maximal run of bytes that
/// are not ASCII whitespace.
pub open spec fn tokens_from(s: Seq<u8>, i: int, cur: Seq<u8>, acc: Seq<Seq<u8>>) -> Seq<Seq<u8>>
    decreases s.len() - i,
{
    if i < 0 || i >= s.len() {
        if cur.len() > 0 {
            acc.push(cur)
        } else {
            acc
        }
    } else if is_space(s[i]) {
        if cur.len() > 0 {
            tokens_from(s, i + 1, Seq::empty(), acc.push(cur))
        } else {
            tokens_from(s, i + 1, cur, acc)
        }
    } else {
        tokens_from(s, i + 1, cur.push(s[i]), acc)
    }
}

/// The whitespace-separated tokens of one byte string.
pub open spec fn spec_tokens(s: Seq<u8>) -> Seq<Seq<u8>> {
    tokens_from(s, 0, Seq::empty(), Seq::empty())
}

/// Split a byte string into its whitespace-separated tokens.
fn tokenize(s: &Vec<u8>) -> (r: Vec<Vec<u8>>)
    ensures
        line_views(r@) == spec_tokens(s@),
{
    let mut acc: Vec<Vec<u8>> = Vec::new();
    let mut cur: Vec<u8> = Vec::new();
    proof {
        assert(line_views(acc@) =~= Seq::<Seq<u8>>::empty());
        assert(cur@ =~= Seq::<u8>::empty());
    }
    let mut i: usize = 0;
    while i < s.len()
        invariant
            i <= s@.len(),
            tokens_from(s@, i as int, cur@, line_views(acc@)) == spec_tokens(s@),
        decreases s@.len() - i,
    {
        let ghost cur0 = cur@;
        let ghost acc0 = line_views(acc@);
        let b = s[i];
        if is_space_byte(b) {
            if cur.len() > 0 {
                acc.push(cur);
                cur = Vec::new();
                proof {
                    assert(line_views(acc@) =~= acc0.push(cur0));
                    assert(cur@ =~= Seq::<u8>::empty());
                }
            }
        } else {
            cur.push(b);
            proof {
                assert(cur@ == cur0.push(s@[i as int]));
            }
        }
        i += 1;
    }
    if cur.len() > 0 {
        let ghost acc0 = line_views(acc@);
        let ghost cur0 = cur@;
        acc.push(cur);
        proof {
            assert(line_views(acc@) =~= acc0.push(cur0));
        }
    }
    acc
}

/// The lexed statements of a mesh file from line `i` on, given an open
/// continuation `pending` and the statements `acc` found so far. A line
/// starting with `#` is a comment and skipped whole; a line ending with a
/// backslash joins the next line, the backslash replaced by a space; any
/// other line closes a statement, whose first token is the prefix and
/// whose remaining tokens are the arguments. A statement with no token at
/// all is malformed (`None`); an unterminated continuation at the end of
/// the file is dropped.
pub open spec fn lex_from(
    lines: Seq<Seq<u8>>,
    i: int,
    pending: Seq<u8>,
    acc: Seq<(Seq<u8>, Seq<Seq<u8>>)>,
) -> Option<Seq<(Seq<u8>, Seq<Seq<u8>>)>>
    decreases lines.len() - i,
{
    if i < 0 || i >= lines.len() {
        Some(acc)
    } else {
        let line = lines[i];
        if line.len() > 0 && line[0] == 35 {
            lex_from(lines, i + 1, pending, acc)
        } else if line.len() > 0 && line[line.len() - 1] == 92 {
            lex_from(lines, i + 1, pending + line.take(line.len() - 1) + seq![32u8], acc)
        } else {
            let toks = spec_tokens(pending + line);
            if toks.len() == 0 {
                None
            } else {
                lex_from(lines, i + 1, Seq::empty(), acc.push((toks[0], toks.drop_first())))
            }
        }
    }
}

/// What [`lex`] produces for a whole file.
pub open spec fn spec_lex(lines: Seq<Seq<u8>>) -> Option<Seq<(Seq<u8>, Seq<Seq<u8>>)>> {
    lex_from(lines, 0, Seq::empty(), Seq::empty())
}

/// Lex the lines of a mesh file into statements, each a prefix and its
/// argument tokens: comments are skipped, backslash continuations joined,
/// tokens split on ASCII whitespace. A statement without any token is
/// reported as an error instead of read over. The result is pinned
/// exactly: it is [`spec_lex`] of the input.
pub fn lex(lines: &Vec<Vec<u8>>) -> (r: Result<Vec<(Vec<u8>, Vec<Vec<u8>>)>, ParseError>)
    ensures
        match spec_lex(line_views(lines@)) {
            Some(out) => r matches Ok(v) && statement_views(v@) == out,
            None => r is Err,
        },
{
    let ghost file = line_views(lines@);
    let mut out: Vec<(Vec<u8>, Vec<Vec<u8>>)> = Vec::new();
    let mut pending: Vec<u8> = Vec::new();
    proof {
        assert(statement_views(out@) =~= Seq::<(Seq<u8>, Seq<Seq<u8>>)>::empty());
        assert(pending@ =~= Seq::<u8>::empty());
    }
    let mut i: usize = 0;
    while i < lines.len()
        invariant
            i <= lines@.len(),
            file == line_views(lines@),
            lex_from(file, i as int, pending@, statement_views(out@)) == spec_lex(file),
        decreases lines@.len() - i,
    {
        let ghost pending0 = pending@;
        let ghost acc0 = statement_views(out@);
        proof {
            assert(file[i as int] == lines@[i as int]@);
        }
        let line = &lines[i];
        let n = line.len();
        if n > 0 && line[0] == 35 {
        } else if n > 0 && line[n - 1] == 92 {
            let mut j: usize = 0;
            while j < n - 1
                invariant
                    n == lines@[i as int]@.len(),
                    n >= 1,
                    i < lines@.len(),
                    j <= n - 1,
                    line == &lines[i as int],
                    pending@ == pending0 + lines@[i as int]@.take(j as int),
                decreases n - 1 - j,
            {
                pending.push(line[j]);
                proof {
                    assert(pending@ =~= pending0 + lines@[i as int]@.take(j + 1));
                }
                j += 1;
            }
            pending.push(32);
            proof {
                assert(pending@ =~= pending0 + lines@[i as int]@.take(n - 1) + seq![32u8]);
            }
        } else {
            let mut stmt = pending;
            pending = Vec::new();
            let mut j: usize = 0;
            while j < n
                invariant
                    n == lines@[i as int]@.len(),
                    i < lines@.len(),
                    j <= n,
                    line == &lines[i as int],
                    stmt@ == pending0 + lines@[i as int]@.take(j as int),
                decreases n - j,
            {
                stmt.push(line[j]);
                proof {
                    assert(stmt@ =~= pending0 + lines@[i as int]@.take(j + 1));
                }
                j += 1;
            }
            proof {
                assert(lines@[i as int]@.take(n as int) =~= lines@[i as int]@);
                assert(stmt@ == pending0 + file[i as int]);
                assert(pending@ =~= Seq::<u8>::empty());
            }
            let mut toks = tokenize(&stmt);
            if toks.len() == 0 {
                proof {
                    assert(spec_tokens(stmt@).len() == 0) by {
                        assert(line_views(toks@).len() == 0);
                    }
                }
                return Err(ParseError::Internal("empty statement".to_owned()));
            }
            proof {
                assert(spec_tokens(stmt@)[0] == toks@[0]@);
            }
            let prefix = toks.remove(0);
            let ghost toks_rest = toks@;
            out.push((prefix, toks));
            proof {
                assert(line_views(toks_rest) =~= spec_tokens(stmt@).drop_first());
                assert(statement_views(out@) =~= acc0.push(
                    (spec_tokens(stmt@)[0], spec_tokens(stmt@).drop_first()),
                ));
            }
        }
        i += 1;
    }
    proof {
        assert(lex_from(file, lines@.len() as int, pending@, statement_views(out@)) == Some(
            statement_views(out@),
        ));
    }
    Ok(out)
}

/// `base` after scattering source entries into it, one pick at a time in
/// order: a pick `(v, s)` writes source entry `s - 1` into slot `v - 1`,
/// and `s == 0` (an omitted index in the face description) writes nothing.
pub open spec fn spec_scatter<A>(base: Seq<A>, src: Seq<A>, picks: Seq<(u32, u32)>) -> Seq<A>
    decreases picks.len(),
{
    if picks.len() == 0 {
        base
    } else {
        let rest = spec_scatter(base, src, picks.drop_last());
        let p = picks.last();
        if p.1 != 0 {
            rest.update(p.0 - 1, src[p.1 - 1])
        } else {
            rest
        }
    }
}

/// A face index triple `(vertex, texture, normal)` is valid when the vertex
/// index names a vertex and the optional texture and normal indices, where
/// not omitted (zero), name an entry of their arrays. Indices in a face
/// description count from one.
pub open spec fn face_triple_valid(
    t: (u32, u32, u32),
    vertex_count: nat,
    texture_count: nat,
    normal_count: nat,
) -> bool {
    &&& 1 <= t.0 <= vertex_count
    &&& t.1 <= texture_count
    &&& t.2 <= normal_count
}

/// Assemble per-vertex data from the face descriptions of a mesh file: the
/// texture coordinate and normal named by each face triple are scattered to
/// the triple's vertex (later faces win), missing entries stay at the
/// origin, and the flat index list keeps the faces' vertex order, rebased
/// to count from zero.
pub fn assemble_face_data(
    vertices: Vec<Vec4>,
    raw_texture_cords: Vec<Vec2>,
    raw_normals: Vec<Vec3>,
    raw_indices: Vec<(u32, u32, u32)>,
) -> (d: Data)
    requires
        forall|i: int|
            0 <= i < raw_indices@.len() ==> face_triple_valid(
                #[trigger] raw_indices@[i],
                vertices@.len(),
                raw_texture_cords@.len(),
                raw_normals@.len(),
            ),
    ensures
        d.vertices@ == vertices@,
        d.indices@.len() == raw_indices@.len(),
        forall|i: int|
            0 <= i < raw_indices@.len() ==> #[trigger] d.indices@[i] == raw_indices@[i].0 - 1,
        d.text_cords@ == spec_scatter(
            Seq::new(vertices@.len(), |i: int| (Vec2 { x: 0, y: 0 })),
            raw_texture_cords@,
            raw_indices@.map_values(|t: (u32, u32, u32)| (t.0, t.1)),
        ),
        d.normals@ == spec_scatter(
            Seq::new(vertices@.len(), |i: int| (Vec3 { x: 0, y: 0, z: 0 })),
            raw_normals@,
            raw_indices@.map_values(|t: (u32, u32, u32)| (t.0, t.2)),
        ),
{
    let ghost tex_base = Seq::new(vertices@.len(), |i: int| (Vec2 { x: 0, y: 0 }));
    let ghost nrm_base = Seq::new(vertices@.len(), |i: int| (Vec3 { x: 0, y: 0, z: 0 }));
    let ghost tex_picks = raw_indices@.map_values(|t: (u32, u32, u32)| (t.0, t.1));
    let ghost nrm_picks = raw_indices@.map_values(|t: (u32, u32, u32)| (t.0, t.2));
    let n = vertices.len();
    let mut text_cords: Vec<Vec2> = Vec::new();
    let mut k: usize = 0;
    while k < n
        invariant
            k <= n,
            text_cords@.len() == k,
            forall|j: int| 0 <= j < k ==> #[trigger] text_cords@[j] == (Vec2 { x: 0, y: 0 }),
        decreases n - k,
    {
        text_cords.push(Vec2 { x: 0, y: 0 });
        k += 1;
    }
    let mut normals: Vec<Vec3> = Vec::new();
    let mut k2: usize = 0;
    while k2 < n
        invariant
            k2 <= n,
            normals@.len() == k2,
            forall|j: int| 0 <= j < k2 ==> #[trigger] normals@[j] == (Vec3 { x: 0, y: 0, z: 0 }),
        decreases n - k2,
    {
        normals.push(Vec3 { x: 0, y: 0, z: 0 });
        k2 += 1;
    }
    proof {
        assert(text_cords@ =~= tex_base);
        assert(normals@ =~= nrm_base);
        assert(tex_picks.take(0) =~= Seq::<(u32, u32)>::empty());
        assert(nrm_picks.take(0) =~= Seq::<(u32, u32)>::empty());
    }
    let mut indices: Vec<u32> = Vec::new();
    let mut i: usize = 0;
    while i < raw_indices.len()
        invariant
            i <= raw_indices@.len(),
            n == vertices@.len(),
            forall|j: int|
                0 <= j < raw_indices@.len() ==> face_triple_valid(
                    #[trigger] raw_indices@[j],
                    vertices@.len(),
                    raw_texture_cords@.len(),
                    raw_normals@.len(),
                ),
            tex_picks == raw_indices@.map_values(|t: (u32, u32, u32)| (t.0, t.1)),
            nrm_picks == raw_indices@.map_values(|t: (u32, u32, u32)| (t.0, t.2)),
            indices@.len() == i,
            forall|j: int| 0 <= j < i ==> #[trigger] indices@[j] == raw_indices@[j].0 - 1,
            text_cords@ == spec_scatter(tex_base, raw_texture_cords@, tex_picks.take(i as int)),
            normals@ == spec_scatter(nrm_base, raw_normals@, nrm_picks.take(i as int)),
            text_cords@.len() == n,
            normals@.len() == n,
        decreases raw_indices@.len() - i,
    {
        let triple = raw_indices[i];
        indices.push(triple.0 - 1);
        proof {
            assert(tex_picks.take(i + 1).drop_last() =~= tex_picks.take(i as int));
            assert(nrm_picks.take(i + 1).drop_last() =~= nrm_picks.take(i as int));
            assert(tex_picks.take(i + 1).last() == (triple.0, triple.1));
            assert(nrm_picks.take(i + 1).last() == (triple.0, triple.2));
        }
        if triple.1 != 0 {
            let slot = (triple.0 - 1) as usize;
            let src = (triple.1 - 1) as usize;
            *vstd::std_specs::vec::vec_index_mut(&mut text_cords, slot) = raw_texture_cords[src];
        }
        if triple.2 != 0 {
            let slot = (triple.0 - 1) as usize;
            let src = (triple.2 - 1) as usize;
            *vstd::std_specs::vec::vec_index_mut(&mut normals, slot) = raw_normals[src];
        }
        proof {
            assert(text_cords@ =~= spec_scatter(tex_base, raw_texture_cords@, tex_picks.take(
                i + 1,
            )));
            assert(normals@ =~= spec_scatter(nrm_base, raw_normals@, nrm_picks.take(i + 1)));
        }
        i += 1;
    }
    proof {
        assert(tex_picks.take(raw_indices@.len() as int) =~= tex_picks);
        assert(nrm_picks.take(raw_indices@.len() as int) =~= nrm_picks);
    }
    Data { vertices, text_cords, normals, indices }
}

} // verus!
