//! Meshes in the text form of Wavefront: lines of `v x y z`, `vt u v`, `f a b c` or
//! `f a/ta b/tb c/tc`, and `usemtl name`.
//!
//! The reader works on bytes. Whitespace is the ASCII kind. Lines end at a line feed;
//! every other line is passed over.

use crate::decimal::{parse_decimal, parse_decimal_spec};
use crate::math::vec::{Vec2, Vec3};
use crate::model::{Model, ModelView};
use crate::raster::Srgb;
use vstd::prelude::*;

verus! {

/// What is wrong with the text of a mesh.
#[derive(Clone, Copy, Debug, PartialEq, Eq, Structural)]
pub enum ObjError {
    /// A coordinate is no decimal number.
    BadNumber,
    /// A face names a vertex or a texture coordinate by something that is no whole
    /// number from 1 up.
    BadIndex,
    /// A `usemtl` line is too short to hold a name.
    BadMaterialLine,
    /// A `usemtl` line names a material that the caller did not give.
    UnknownMaterial,
}

/// A material: its name, and the width, the height and the pixels of its texture.
pub struct Material {
    pub name: Vec<u8>,
    pub width: usize,
    pub height: usize,
    pub pixels: Vec<Srgb>,
}

/// The mesh of an empty text.
pub open spec fn empty_state() -> ModelView {
    ModelView {
        faces: Seq::empty(),
        face_textures: Seq::empty(),
        verts: Seq::empty(),
        uvs: Seq::empty(),
        textures: Seq::empty(),
    }
}

/// ASCII whitespace: the space, and the tab up to the carriage return.
pub open spec fn is_space(b: u8) -> bool {
    b == 0x20 || (0x09 <= b && b <= 0x0d)
}

/// Where the line that holds `from` ends: at the first line feed from there on, or at
/// the end of the text.
pub open spec fn line_end(s: Seq<u8>, from: int) -> int
    decreases s.len() - from,
{
    if from >= s.len() {
        from
    } else if s[from] == 0x0a {
        from
    } else {
        line_end(s, from + 1)
    }
}

/// Where the token at `from` ends: at the first whitespace from there on, or at `end`.
pub open spec fn token_end(s: Seq<u8>, from: int, end: int) -> int
    decreases end - from,
{
    if from >= end {
        from
    } else if is_space(s[from]) {
        from
    } else {
        token_end(s, from + 1, end)
    }
}

/// Where reading goes on after the token at `from`: past the one whitespace byte that
/// ended it. Where the token ran to the end of the line, reading stays at `from`, and the
/// same token is read again.
pub open spec fn after_token(s: Seq<u8>, from: int, end: int) -> int {
    let t = token_end(s, from, end);
    if t < end {
        t + 1
    } else {
        from
    }
}

/// The number that the token at `from` says.
pub open spec fn token_number(s: Seq<u8>, from: int, end: int) -> Option<crate::single::F32> {
    parse_decimal_spec(s, from, token_end(s, from, end))
}

/// Where the part at `from` ends: at the first slash from there on, or at `end`.
pub open spec fn part_end(s: Seq<u8>, from: int, end: int) -> int
    decreases end - from,
{
    if from >= end {
        from
    } else if s[from] == 0x2f {
        from
    } else {
        part_end(s, from + 1, end)
    }
}

/// The value of the decimal digits from `from` up to `to`.
pub open spec fn digits_value(s: Seq<u8>, from: int, to: int) -> nat
    decreases to - from,
{
    if from >= to {
        0
    } else {
        digits_value(s, from, to - 1) * 10 + (s[to - 1] - 0x30) as nat
    }
}

/// Whether the bytes from `from` up to `to` are all decimal digits.
pub open spec fn all_digits(s: Seq<u8>, from: int, to: int) -> bool {
    forall|i: int| from <= i < to ==> 0x30 <= #[trigger] s[i] <= 0x39
}

/// The index that the bytes from `from` up to `to` name: they are a whole number from 1
/// up that fits a `usize`, in decimal digits with or without a plus sign before them, and
/// the index is one less.
pub open spec fn index_of(s: Seq<u8>, from: int, to: int) -> Option<usize> {
    let start = if from < to && s[from] == 0x2b {
        from + 1
    } else {
        from
    };
    if start < to && all_digits(s, start, to) && 1 <= digits_value(s, start, to) <= usize::MAX {
        Some((digits_value(s, start, to) - 1) as usize)
    } else {
        None
    }
}

/// The texture that a face on this line is bound to: the last one named so far, or 0
/// where none was.
pub open spec fn current_texture(st: ModelView) -> usize {
    if st.textures.len() == 0 {
        0
    } else {
        (st.textures.len() - 1) as usize
    }
}

/// A face without slashes: three numbers, each read as a token.
pub open spec fn plain_face(s: Seq<u8>, from: int, end: int, st: ModelView) -> Result<ModelView, ObjError> {
    let a = from;
    let b = after_token(s, a, end);
    let c = after_token(s, b, end);
    match (
        index_of(s, a, token_end(s, a, end)),
        index_of(s, b, token_end(s, b, end)),
        index_of(s, c, token_end(s, c, end)),
    ) {
        (Some(x), Some(y), Some(z)) => Ok(ModelView { faces: st.faces.push(x).push(y).push(z), ..st }),
        _ => Err(ObjError::BadIndex),
    }
}

/// A face with slashes, from `from` on: groups between whitespace, of which the part
/// before the first slash names a vertex and the part after it, where there is one, a
/// texture coordinate of the current texture. What follows a second slash is passed over.
pub open spec fn slash_face(s: Seq<u8>, from: int, end: int, st: ModelView) -> Result<ModelView, ObjError>
    decreases end - from,
{
    if from >= end {
        Ok(st)
    } else if is_space(s[from]) {
        slash_face(s, from + 1, end, st)
    } else {
        let stop = token_end(s, from, end);
        let next = if from < stop <= end {
            stop
        } else {
            from + 1
        };
        let cut = part_end(s, from, stop);
        match index_of(s, from, cut) {
            None => Err(ObjError::BadIndex),
            Some(v) => {
                let with_vertex = ModelView { faces: st.faces.push(v), ..st };
                if cut < stop {
                    match index_of(s, cut + 1, part_end(s, cut + 1, stop)) {
                        None => Err(ObjError::BadIndex),
                        Some(t) => slash_face(
                            s,
                            next,
                            end,
                            ModelView {
                                face_textures: st.face_textures.push((t, current_texture(st))),
                                ..with_vertex
                            },
                        ),
                    }
                } else {
                    slash_face(s, next, end, with_vertex)
                }
            },
        }
    }
}

/// Whether a slash occurs from `from` up to `end`.
pub open spec fn has_slash(s: Seq<u8>, from: int, end: int) -> bool {
    exists|i: int| from <= i < end && #[trigger] s[i] == 0x2f
}

/// The first of the names from `from` on that is `name`.
pub open spec fn first_match(names: Seq<Material>, name: Seq<u8>, from: int) -> Option<usize>
    decreases names.len() - from,
{
    if from >= names.len() {
        None
    } else if names[from].name@ == name {
        Some(from as usize)
    } else {
        first_match(names, name, from + 1)
    }
}

/// Whether the line starts with `v` and a space.
pub open spec fn is_vertex_line(s: Seq<u8>, from: int, end: int) -> bool {
    end - from >= 2 && s[from] == 0x76 && s[from + 1] == 0x20
}

/// Whether the line starts with `vt` and a space.
pub open spec fn is_uv_line(s: Seq<u8>, from: int, end: int) -> bool {
    end - from >= 3 && s[from] == 0x76 && s[from + 1] == 0x74 && s[from + 2] == 0x20
}

/// Whether the line starts with `f` and a space.
pub open spec fn is_face_line(s: Seq<u8>, from: int, end: int) -> bool {
    end - from >= 2 && s[from] == 0x66 && s[from + 1] == 0x20
}

/// Whether the line starts with `usemtl`.
pub open spec fn is_material_line(s: Seq<u8>, from: int, end: int) -> bool {
    end - from >= 6 && s[from] == 0x75 && s[from + 1] == 0x73 && s[from + 2] == 0x65 && s[from + 3] == 0x6d
        && s[from + 4] == 0x74 && s[from + 5] == 0x6c
}

/// The mesh after the line from `from` up to `end`.
pub open spec fn parse_line(s: Seq<u8>, names: Seq<Material>, from: int, end: int, st: ModelView) -> Result<
    ModelView,
    ObjError,
> {
    if is_vertex_line(s, from, end) {
        let a = from + 2;
        let b = after_token(s, a, end);
        let c = after_token(s, b, end);
        match (token_number(s, a, end), token_number(s, b, end), token_number(s, c, end)) {
            (Some(x), Some(y), Some(z)) => Ok(ModelView { verts: st.verts.push(Vec3 { x, y, z }), ..st }),
            _ => Err(ObjError::BadNumber),
        }
    } else if is_uv_line(s, from, end) {
        let a = from + 3;
        let b = after_token(s, a, end);
        match (token_number(s, a, end), token_number(s, b, end)) {
            (Some(x), Some(y)) => Ok(ModelView { uvs: st.uvs.push(Vec2 { x, y }), ..st }),
            _ => Err(ObjError::BadNumber),
        }
    } else if is_face_line(s, from, end) {
        if has_slash(s, from, end) {
            slash_face(s, from + 2, end, st)
        } else {
            plain_face(s, from + 2, end, st)
        }
    } else if is_material_line(s, from, end) {
        if end - from < 7 {
            Err(ObjError::BadMaterialLine)
        } else {
            match first_match(names, s.subrange(from + 7, end), 0) {
                Some(i) => Ok(
                    ModelView {
                        textures: st.textures.push((names[i as int].width, names[i as int].height, names[i as int].pixels@)),
                        ..st
                    },
                ),
                None => Err(ObjError::UnknownMaterial),
            }
        }
    } else {
        Ok(st)
    }
}

/// The mesh after the lines from `from` on.
pub open spec fn parse_from(s: Seq<u8>, names: Seq<Material>, from: int, st: ModelView) -> Result<ModelView, ObjError>
    decreases s.len() - from,
{
    if from >= s.len() {
        Ok(st)
    } else {
        let end = line_end(s, from);
        let next = if from <= end < s.len() {
            end + 1
        } else {
            s.len() as int
        };
        match parse_line(s, names, from, end, st) {
            Ok(after) => parse_from(s, names, next, after),
            Err(e) => Err(e),
        }
    }
}

/// The mesh that a text holds.
pub open spec fn parse_obj_spec(s: Seq<u8>, names: Seq<Material>) -> Result<ModelView, ObjError> {
    parse_from(s, names, 0, empty_state())
}

proof fn lemma_token_end_bounds(s: Seq<u8>, from: int, end: int)
    requires
        from <= end,
    ensures
        from <= token_end(s, from, end) <= end,
        from < end && !is_space(s[from]) ==> from < token_end(s, from, end),
    decreases end - from,
{
    if from < end && !is_space(s[from]) {
        lemma_token_end_bounds(s, from + 1, end);
    }
}

fn find_line_end(text: &[u8], from: usize) -> (r: usize)
    requires
        from <= text@.len(),
    ensures
        r == line_end(text@, from as int),
        from <= r <= text@.len(),
{
    let mut i: usize = from;
    while i < text.len() && text[i] != 0x0a
        invariant
            from <= i <= text@.len(),
            line_end(text@, from as int) == line_end(text@, i as int),
        decreases text@.len() - i,
    {
        i = i + 1;
    }
    i
}

fn find_token_end(text: &[u8], from: usize, end: usize) -> (r: usize)
    requires
        from <= end <= text@.len(),
    ensures
        r == token_end(text@, from as int, end as int),
        from <= r <= end,
{
    let mut i: usize = from;
    while i < end && !(text[i] == 0x20 || (0x09 <= text[i] && text[i] <= 0x0d))
        invariant
            from <= i <= end,
            end <= text@.len(),
            token_end(text@, from as int, end as int) == token_end(text@, i as int, end as int),
        decreases end - i,
    {
        i = i + 1;
    }
    i
}

fn find_part_end(text: &[u8], from: usize, end: usize) -> (r: usize)
    requires
        from <= end <= text@.len(),
    ensures
        r == part_end(text@, from as int, end as int),
        from <= r <= end,
{
    let mut i: usize = from;
    while i < end && text[i] != 0x2f
        invariant
            from <= i <= end,
            end <= text@.len(),
            part_end(text@, from as int, end as int) == part_end(text@, i as int, end as int),
        decreases end - i,
    {
        i = i + 1;
    }
    i
}

fn find_slash(text: &[u8], from: usize, end: usize) -> (r: bool)
    requires
        from <= end <= text@.len(),
    ensures
        r == has_slash(text@, from as int, end as int),
{
    let mut i: usize = from;
    while i < end
        invariant
            from <= i <= end,
            end <= text@.len(),
            forall|k: int| from <= k < i ==> #[trigger] text@[k] != 0x2f,
        decreases end - i,
    {
        if text[i] == 0x2f {
            return true;
        }
        i = i + 1;
    }
    false
}

/// Reading on after one token.
fn step(text: &[u8], from: usize, end: usize) -> (r: usize)
    requires
        from <= end <= text@.len(),
    ensures
        r == after_token(text@, from as int, end as int),
        from <= r <= end,
{
    let t = find_token_end(text, from, end);
    if t < end {
        t + 1
    } else {
        from
    }
}

proof fn lemma_digits_grow(s: Seq<u8>, from: int, mid: int, to: int)
    requires
        from <= mid <= to,
        all_digits(s, from, to),
    ensures
        digits_value(s, from, mid) <= digits_value(s, from, to),
    decreases to - mid,
{
    if mid < to {
        lemma_digits_grow(s, from, mid, to - 1);
        assert(0x30 <= s[to - 1] <= 0x39);
    }
}

/// Reads a whole number from 1 up and gives the index one below it.
#[verifier::loop_isolation(false)]
fn read_index(text: &[u8], from: usize, to: usize) -> (r: Option<usize>)
    requires
        from <= to <= text@.len(),
    ensures
        r == index_of(text@, from as int, to as int),
{
    let start: usize = if from < to && text[from] == 0x2b {
        from + 1
    } else {
        from
    };
    if start >= to {
        return None;
    }
    let mut value: usize = 0;
    let mut i: usize = start;
    while i < to
        invariant
            start <= i <= to,
            to <= text@.len(),
            all_digits(text@, start as int, i as int),
            value == digits_value(text@, start as int, i as int),
        decreases to - i,
    {
        let b = text[i];
        if b < 0x30 || b > 0x39 {
            return None;
        }
        let d: usize = (b - 0x30) as usize;
        if value > (usize::MAX - d) / 10 {
            proof {
                if all_digits(text@, start as int, to as int) {
                    lemma_digits_grow(text@, start as int, i + 1, to as int);
                }
            }
            return None;
        }
        value = value * 10 + d;
        i = i + 1;
    }
    if value == 0 {
        None
    } else {
        Some(value - 1)
    }
}

fn read_number(text: &[u8], from: usize, end: usize) -> (r: Option<crate::single::F32>)
    requires
        from <= end <= text@.len(),
    ensures
        r == token_number(text@, from as int, end as int),
{
    let stop = find_token_end(text, from, end);
    parse_decimal(text, from, stop)
}

fn copy_pixels(pixels: &Vec<Srgb>) -> (r: Vec<Srgb>)
    ensures
        r@ == pixels@,
{
    let mut out: Vec<Srgb> = Vec::new();
    let mut i: usize = 0;
    while i < pixels.len()
        invariant
            i <= pixels.len(),
            out@ == pixels@.take(i as int),
        decreases pixels.len() - i,
    {
        out.push(pixels[i]);
        assert(out@ =~= pixels@.take(i + 1));
        i = i + 1;
    }
    assert(pixels@.take(pixels@.len() as int) =~= pixels@);
    out
}

fn same_bytes(text: &[u8], from: usize, end: usize, name: &Vec<u8>) -> (r: bool)
    requires
        from <= end <= text@.len(),
    ensures
        r == (name@ == text@.subrange(from as int, end as int)),
{
    if name.len() != end - from {
        return false;
    }
    let mut i: usize = 0;
    while i < name.len()
        invariant
            i <= name.len(),
            name.len() == end - from,
            end <= text@.len(),
            forall|k: int| 0 <= k < i ==> name@[k] == text@[from + k],
        decreases name.len() - i,
    {
        if name[i] != text[from + i] {
            assert(text@.subrange(from as int, end as int)[i as int] == text@[from + i]);
            return false;
        }
        i = i + 1;
    }
    assert(name@ =~= text@.subrange(from as int, end as int));
    true
}

fn find_material(text: &[u8], from: usize, end: usize, names: &Vec<Material>) -> (r: Option<usize>)
    requires
        from <= end <= text@.len(),
    ensures
        r == first_match(names@, text@.subrange(from as int, end as int), 0),
        match r {
            Some(i) => i < names@.len(),
            None => true,
        },
{
    let mut i: usize = 0;
    while i < names.len()
        invariant
            i <= names.len(),
            from <= end <= text@.len(),
            first_match(names@, text@.subrange(from as int, end as int), 0) == first_match(
                names@,
                text@.subrange(from as int, end as int),
                i as int,
            ),
        decreases names.len() - i,
    {
        if same_bytes(text, from, end, &names[i].name) {
            return Some(i);
        }
        i = i + 1;
    }
    None
}

#[verifier::loop_isolation(false)]
fn read_slash_face(text: &[u8], from: usize, end: usize, mesh: &mut Model) -> (r: Result<(), ObjError>)
    requires
        from <= end <= text@.len(),
    ensures
        match r {
            Ok(()) => slash_face(text@, from as int, end as int, old(mesh)@) == Ok::<ModelView, ObjError>(
                final(mesh)@,
            ),
            Err(e) => slash_face(text@, from as int, end as int, old(mesh)@) == Err::<ModelView, ObjError>(e),
        },
{
    let ghost s = text@;
    let ghost goal = slash_face(s, from as int, end as int, mesh@);
    let mut i: usize = from;
    while i < end
        invariant
            from <= i <= end,
            end <= text@.len(),
            s == text@,
            slash_face(s, i as int, end as int, mesh@) == goal,
        decreases end - i,
    {
        let b = text[i];
        if b == 0x20 || (0x09 <= b && b <= 0x0d) {
            i = i + 1;
        } else {
            let stop = find_token_end(text, i, end);
            proof {
                lemma_token_end_bounds(s, i as int, end as int);
            }
            let cut = find_part_end(text, i, stop);
            let texture: usize = if mesh.textures.len() == 0 {
                0
            } else {
                mesh.textures.len() - 1
            };
            match read_index(text, i, cut) {
                None => {
                    return Err(ObjError::BadIndex);
                },
                Some(v) => {
                    if cut < stop {
                        let cut2 = find_part_end(text, cut + 1, stop);
                        match read_index(text, cut + 1, cut2) {
                            None => {
                                return Err(ObjError::BadIndex);
                            },
                            Some(t) => {
                                mesh.faces.push(v);
                                mesh.face_textures.push((t, texture));
                            },
                        }
                    } else {
                        mesh.faces.push(v);
                    }
                },
            }
            i = stop;
        }
    }
    Ok(())
}

fn read_line(text: &[u8], names: &Vec<Material>, from: usize, end: usize, mesh: &mut Model) -> (r: Result<
    (),
    ObjError,
>)
    requires
        from <= end <= text@.len(),
    ensures
        match r {
            Ok(()) => parse_line(text@, names@, from as int, end as int, old(mesh)@) == Ok::<
                ModelView,
                ObjError,
            >(final(mesh)@),
            Err(e) => parse_line(text@, names@, from as int, end as int, old(mesh)@) == Err::<
                ModelView,
                ObjError,
            >(e),
        },
{
    let len: usize = end - from;
    if len >= 2 && text[from] == 0x76 && text[from + 1] == 0x20 {
        let a = from + 2;
        let b = step(text, a, end);
        let c = step(text, b, end);
        let x = read_number(text, a, end);
        let y = read_number(text, b, end);
        let z = read_number(text, c, end);
        match (x, y, z) {
            (Some(x), Some(y), Some(z)) => {
                mesh.verts.push(Vec3 { x, y, z });
                Ok(())
            },
            _ => Err(ObjError::BadNumber),
        }
    } else if len >= 3 && text[from] == 0x76 && text[from + 1] == 0x74 && text[from + 2] == 0x20 {
        let a = from + 3;
        let b = step(text, a, end);
        let x = read_number(text, a, end);
        let y = read_number(text, b, end);
        match (x, y) {
            (Some(x), Some(y)) => {
                mesh.uvs.push(Vec2 { x, y });
                Ok(())
            },
            _ => Err(ObjError::BadNumber),
        }
    } else if len >= 2 && text[from] == 0x66 && text[from + 1] == 0x20 {
        if find_slash(text, from, end) {
            read_slash_face(text, from + 2, end, mesh)
        } else {
            let a = from + 2;
            let b = step(text, a, end);
            let c = step(text, b, end);
            let ea = find_token_end(text, a, end);
            let eb = find_token_end(text, b, end);
            let ec = find_token_end(text, c, end);
            match (read_index(text, a, ea), read_index(text, b, eb), read_index(text, c, ec)) {
                (Some(x), Some(y), Some(z)) => {
                    mesh.faces.push(x);
                    mesh.faces.push(y);
                    mesh.faces.push(z);
                    Ok(())
                },
                _ => Err(ObjError::BadIndex),
            }
        }
    } else if len >= 6 && text[from] == 0x75 && text[from + 1] == 0x73 && text[from + 2] == 0x65 && text[from
        + 3] == 0x6d && text[from + 4] == 0x74 && text[from + 5] == 0x6c {
        if len < 7 {
            Err(ObjError::BadMaterialLine)
        } else {
            match find_material(text, from + 7, end, names) {
                Some(i) => {
                    let pixels = copy_pixels(&names[i].pixels);
                    let ghost before = mesh@;
                    mesh.textures.push((names[i].width, names[i].height, pixels));
                    assert(mesh@.textures =~= before.textures.push(
                        (names@[i as int].width, names@[i as int].height, names@[i as int].pixels@),
                    ));
                    Ok(())
                },
                None => Err(ObjError::UnknownMaterial),
            }
        }
    } else {
        Ok(())
    }
}

/// Reads a mesh from its text. `names` are the materials that the caller holds; a
/// `usemtl` line must name one of them, and its texture becomes the next texture of the
/// mesh. The result is the mesh that the text holds, or the first thing that is wrong
/// with the text.
#[verifier::loop_isolation(false)]
pub fn parse_obj(text: &[u8], names: &Vec<Material>) -> (r: Result<Model, ObjError>)
    ensures
        match r {
            Ok(mesh) => parse_obj_spec(text@, names@) == Ok::<ModelView, ObjError>(mesh@),
            Err(e) => parse_obj_spec(text@, names@) == Err::<ModelView, ObjError>(e),
        },
{
    let mut mesh = Model {
        faces: Vec::new(),
        face_textures: Vec::new(),
        verts: Vec::new(),
        uvs: Vec::new(),
        textures: Vec::new(),
    };
    assert(mesh@.textures =~= Seq::empty());
    assert(mesh@ == empty_state());
    let mut pos: usize = 0;
    while pos < text.len()
        invariant
            pos <= text@.len(),
            parse_from(text@, names@, pos as int, mesh@) == parse_obj_spec(text@, names@),
        decreases text@.len() - pos,
    {
        let end = find_line_end(text, pos);
        match read_line(text, names, pos, end, &mut mesh) {
            Ok(()) => {},
            Err(e) => {
                return Err(e);
            },
        }
        pos = if end < text.len() {
            end + 1
        } else {
            end
        };
    }
    Ok(mesh)
}

} // verus!
