//! Mesh export rules: buffer checks, Wavefront OBJ text and the glTF binary buffer.

use base64::Engine;
use vstd::prelude::*;
use vstd::string::StringExecFns;
use crate::mesh_index::is_triangle_mesh;
use crate::text::{
    decimal, decimal_value, is_digit_run, lemma_decimal_is_digit_run, lemma_decimal_value, lemma_decimal_has_no_newline, lemma_newline_count_concat, newline_count, push_char,
    push_decimal,
};

verus! {

/// Why a mesh cannot be exported.
#[derive(Debug, Clone, Copy, PartialEq, Eq, Structural)]
pub enum MeshExportError {
    /// The position buffer is empty.
    EmptyPositions,
    /// The index buffer does not hold whole triangles.
    BadIndexCount,
}

impl MeshExportError {
    /// The human-readable text of the error.
    pub open spec fn message_spec(&self) -> Seq<char> {
        match self {
            MeshExportError::EmptyPositions => "mesh has no vertices"@,
            MeshExportError::BadIndexCount => "mesh index count must be a multiple of 3"@,
        }
    }

    /// Renders the error as the text shown to users.
    pub fn message(&self) -> (s: String)
        ensures
            s@ == self.message_spec(),
    {
        match self {
            MeshExportError::EmptyPositions => String::from_str("mesh has no vertices"),
            MeshExportError::BadIndexCount => String::from_str(
                "mesh index count must be a multiple of 3",
            ),
        }
    }
}

/// The export precondition on a mesh of `positions_len` coordinates and `indices_len` indices.
pub open spec fn mesh_buffers_result(positions_len: int, indices_len: int) -> Result<
    (),
    MeshExportError,
> {
    if positions_len == 0 {
        Err(MeshExportError::EmptyPositions)
    } else if indices_len % 3 != 0 {
        Err(MeshExportError::BadIndexCount)
    } else {
        Ok(())
    }
}

/// Checks that a mesh has vertices and whole triangles; empty positions are reported first.
pub fn check_mesh_buffers(positions_len: usize, indices_len: usize) -> (r: Result<
    (),
    MeshExportError,
>)
    ensures
        r == mesh_buffers_result(positions_len as int, indices_len as int),
        r is Ok <==> positions_len > 0 && indices_len % 3 == 0,
        r == Err::<(), MeshExportError>(MeshExportError::EmptyPositions) <==> positions_len == 0,
        r == Err::<(), MeshExportError>(MeshExportError::BadIndexCount) <==> positions_len > 0
            && indices_len % 3 != 0,
{
    if positions_len == 0 {
        return Err(MeshExportError::EmptyPositions);
    }
    if indices_len % 3 != 0 {
        return Err(MeshExportError::BadIndexCount);
    }
    Ok(())
}

/// A triangle mesh with at least one vertex (three coordinates each) always passes the export check.
pub proof fn lemma_triangle_mesh_exports(vertex_count: int, indices: Seq<u32>)
    requires
        vertex_count > 0,
        is_triangle_mesh(vertex_count, indices),
    ensures
        mesh_buffers_result(3 * vertex_count, indices.len() as int) is Ok,
{
}

/// One OBJ face line: `f a b c` with 1-based vertex numbers.
pub open spec fn obj_face_line(a: u32, b: u32, c: u32) -> Seq<char> {
    seq!['f', ' '] + decimal((a + 1) as nat) + seq![' '] + decimal((b + 1) as nat) + seq![' ']
        + decimal((c + 1) as nat) + seq!['\n']
}

/// A face line reads back as its triangle: it is `f`, a space, and three runs of digits
/// separated by spaces and ended by a line break, and the runs read as the triangle's three
/// indices plus one, in order.
pub proof fn lemma_obj_face_line_reads_back(a: u32, b: u32, c: u32)
    requires
        a < u32::MAX,
        b < u32::MAX,
        c < u32::MAX,
    ensures
        exists|da: Seq<char>, db: Seq<char>, dc: Seq<char>|
            {
                &&& is_digit_run(da) && is_digit_run(db) && is_digit_run(dc)
                &&& decimal_value(da) == a + 1
                &&& decimal_value(db) == b + 1
                &&& decimal_value(dc) == c + 1
                &&& #[trigger] obj_face_line(a, b, c) == seq!['f', ' '] + da + seq![' '] + db
                    + seq![' '] + dc + seq!['\n']
            },
{
    let da = decimal((a + 1) as nat);
    let db = decimal((b + 1) as nat);
    let dc = decimal((c + 1) as nat);
    lemma_decimal_is_digit_run((a + 1) as nat);
    lemma_decimal_is_digit_run((b + 1) as nat);
    lemma_decimal_is_digit_run((c + 1) as nat);
    lemma_decimal_value((a + 1) as nat);
    lemma_decimal_value((b + 1) as nat);
    lemma_decimal_value((c + 1) as nat);
    assert(obj_face_line(a, b, c) == seq!['f', ' '] + da + seq![' '] + db + seq![' '] + dc
        + seq!['\n']);
}

/// Face lines of the first `count` triangles of `indices`.
pub open spec fn obj_faces_upto(indices: Seq<u32>, count: nat) -> Seq<char>
    decreases count,
{
    if count == 0 {
        Seq::empty()
    } else {
        let k = 3 * (count - 1);
        obj_faces_upto(indices, (count - 1) as nat) + obj_face_line(
            indices[k],
            indices[k + 1],
            indices[k + 2],
        )
    }
}

/// Face lines of every whole triangle of `indices`; a trailing partial triangle is ignored.
pub open spec fn obj_faces(indices: Seq<u32>) -> Seq<char> {
    obj_faces_upto(indices, indices.len() / 3)
}

/// Each face line is exactly one line.
pub proof fn lemma_obj_face_line_is_one_line(a: u32, b: u32, c: u32)
    ensures
        newline_count(obj_face_line(a, b, c)) == 1,
{
    let da = decimal((a + 1) as nat);
    let db = decimal((b + 1) as nat);
    let dc = decimal((c + 1) as nat);
    lemma_decimal_has_no_newline((a + 1) as nat);
    lemma_decimal_has_no_newline((b + 1) as nat);
    lemma_decimal_has_no_newline((c + 1) as nat);
    let fs = seq!['f', ' '];
    let sp = seq![' '];
    let nl = seq!['\n'];
    assert(newline_count(Seq::<char>::empty()) == 0);
    assert(newline_count(fs) == 0) by {
        assert(fs.drop_last().drop_last() =~= Seq::<char>::empty());
        assert(fs.drop_last() =~= seq!['f']);
        assert(newline_count(seq!['f']) == newline_count(Seq::<char>::empty()));
        assert(newline_count(fs) == newline_count(fs.drop_last()));
    }
    assert(newline_count(sp) == 0) by {
        assert(sp.drop_last() =~= Seq::<char>::empty());
        assert(newline_count(sp) == newline_count(sp.drop_last()));
    }
    assert(newline_count(nl) == 1) by {
        assert(nl.drop_last() =~= Seq::<char>::empty());
        assert(newline_count(nl) == newline_count(nl.drop_last()) + 1);
    }
    lemma_newline_count_concat(fs, da);
    lemma_newline_count_concat(fs + da, sp);
    lemma_newline_count_concat(fs + da + sp, db);
    lemma_newline_count_concat(fs + da + sp + db, sp);
    lemma_newline_count_concat(fs + da + sp + db + sp, dc);
    lemma_newline_count_concat(fs + da + sp + db + sp + dc, nl);
}

/// The face text holds exactly one line per whole triangle of the index buffer.
pub proof fn lemma_obj_faces_line_count(indices: Seq<u32>, count: nat)
    requires
        3 * count <= indices.len(),
    ensures
        newline_count(obj_faces_upto(indices, count)) == count,
    decreases count,
{
    if count > 0 {
        let k = 3 * (count - 1);
        lemma_obj_faces_line_count(indices, (count - 1) as nat);
        lemma_obj_face_line_is_one_line(indices[k], indices[k + 1], indices[k + 2]);
        lemma_newline_count_concat(
            obj_faces_upto(indices, (count - 1) as nat),
            obj_face_line(indices[k], indices[k + 1], indices[k + 2]),
        );
    }
}

/// No index is the largest `u32`, so its 1-based number is a `u32` too.
pub open spec fn indices_numberable(indices: Seq<u32>) -> bool {
    forall|i: int| 0 <= i < indices.len() ==> (#[trigger] indices[i]) < u32::MAX
}

/// The face text of fewer triangles is a prefix of the face text of more.
pub proof fn lemma_obj_faces_prefix(indices: Seq<u32>, t: nat, count: nat)
    requires
        t <= count,
        3 * count <= indices.len(),
    ensures
        obj_faces_upto(indices, t).len() <= obj_faces_upto(indices, count).len(),
        obj_faces_upto(indices, count).subrange(0, obj_faces_upto(indices, t).len() as int)
            == obj_faces_upto(indices, t),
    decreases count - t,
{
    if t < count {
        lemma_obj_faces_prefix(indices, t, (count - 1) as nat);
        let shorter = obj_faces_upto(indices, (count - 1) as nat);
        let full = obj_faces_upto(indices, count);
        let n = obj_faces_upto(indices, t).len() as int;
        assert(full.subrange(0, n) =~= shorter.subrange(0, n));
    } else {
        assert(obj_faces_upto(indices, count).subrange(0, obj_faces_upto(indices, t).len() as int)
            =~= obj_faces_upto(indices, t));
    }
}

/// Line `t` of the face text is the face of triangle `t`: after exactly `t` line breaks comes
/// `f`, a space and three space-separated digit runs that read as the triangle's indices plus
/// one, then a line break.
pub proof fn lemma_obj_faces_line_reads_back(indices: Seq<u32>, count: nat, t: nat)
    requires
        3 * count <= indices.len(),
        t < count,
        indices_numberable(indices),
    ensures
        exists|pre: Seq<char>, da: Seq<char>, db: Seq<char>, dc: Seq<char>|
            #![trigger newline_count(pre), is_digit_run(da), is_digit_run(db), is_digit_run(dc)]
            {
                let line = seq!['f', ' '] + da + seq![' '] + db + seq![' '] + dc + seq!['\n'];
                &&& newline_count(pre) == t
                &&& is_digit_run(da) && is_digit_run(db) && is_digit_run(dc)
                &&& decimal_value(da) == indices[3 * t as int] + 1
                &&& decimal_value(db) == indices[3 * t as int + 1] + 1
                &&& decimal_value(dc) == indices[3 * t as int + 2] + 1
                &&& (pre + line).len() <= obj_faces_upto(indices, count).len()
                &&& obj_faces_upto(indices, count).subrange(0, (pre + line).len() as int)
                    == pre + line
            },
{
    let k: int = 3 * t as int;
    let a = indices[k];
    let b = indices[k + 1];
    let c = indices[k + 2];
    let pre = obj_faces_upto(indices, t);
    lemma_obj_faces_prefix(indices, (t + 1) as nat, count);
    lemma_obj_faces_line_count(indices, t);
    let da = decimal((a + 1) as nat);
    let db = decimal((b + 1) as nat);
    let dc = decimal((c + 1) as nat);
    lemma_decimal_is_digit_run((a + 1) as nat);
    lemma_decimal_is_digit_run((b + 1) as nat);
    lemma_decimal_is_digit_run((c + 1) as nat);
    lemma_decimal_value((a + 1) as nat);
    lemma_decimal_value((b + 1) as nat);
    lemma_decimal_value((c + 1) as nat);
    let line = seq!['f', ' '] + da + seq![' '] + db + seq![' '] + dc + seq!['\n'];
    assert(obj_faces_upto(indices, (t + 1) as nat) == pre + line);
    assert(obj_faces_upto(indices, count).subrange(0, (pre + line).len() as int) == pre + line);
}

/// Appends the OBJ face lines of `indices` (1-based vertex numbers).
pub fn push_obj_faces(out: &mut String, indices: &Vec<u32>)
    requires
        indices_numberable(indices@),
    ensures
        final(out)@ == old(out)@ + obj_faces(indices@),
{
    let ghost before = out@;
    let n = indices.len();
    let count = n / 3;
    let mut t: usize = 0;
    while t < count
        invariant
            n == indices@.len(),
            count == n / 3,
            t <= count,
            indices_numberable(indices@),
            out@ == before + obj_faces_upto(indices@, t as nat),
        decreases count - t,
    {
        assert(3 * t + 2 < n) by (nonlinear_arith)
            requires
                t < count,
                count == n / 3,
        ;
        let k = 3 * t;
        let a = indices[k];
        let b = indices[k + 1];
        let c = indices[k + 2];
        let ghost mid = out@;
        push_char(out, 'f');
        push_char(out, ' ');
        push_decimal(out, (a + 1) as u64);
        push_char(out, ' ');
        push_decimal(out, (b + 1) as u64);
        push_char(out, ' ');
        push_decimal(out, (c + 1) as u64);
        push_char(out, '\n');
        assert(out@ =~= mid + obj_face_line(a, b, c));
        t = t + 1;
    }
}

/// The first line of every OBJ document.
pub open spec fn obj_header() -> Seq<char> {
    "# FurniGen — units: mm\n"@
}

/// Wavefront OBJ text: header, object name, the vertex lines as given, then the face lines.
/// `vertex_lines` holds the `v x y z` lines of the `positions_len / 3` vertices.
pub fn obj_text(object_name: &str, vertex_lines: &str, positions_len: usize, indices: &Vec<u32>) -> (r:
    Result<String, MeshExportError>)
    requires
        indices_numberable(indices@),
    ensures
        match r {
            Ok(s) => mesh_buffers_result(positions_len as int, indices@.len() as int) is Ok && s@
                == obj_header() + seq!['o', ' '] + object_name@ + seq!['\n'] + vertex_lines@
                + obj_faces(indices@) && newline_count(obj_faces(indices@)) == indices@.len() / 3,
            Err(e) => mesh_buffers_result(positions_len as int, indices@.len() as int) == Err::<
                (),
                MeshExportError,
            >(e),
        },
{
    check_mesh_buffers(positions_len, indices.len())?;
    let mut out = String::from_str("# FurniGen — units: mm\n");
    push_char(&mut out, 'o');
    push_char(&mut out, ' ');
    out.append(object_name);
    push_char(&mut out, '\n');
    out.append(vertex_lines);
    push_obj_faces(&mut out, indices);
    proof {
        lemma_obj_faces_line_count(indices@, (indices@.len() / 3) as nat);
    }
    assert(out@ =~= obj_header() + seq!['o', ' '] + object_name@ + seq!['\n'] + vertex_lines@
        + obj_faces(indices@));
    Ok(out)
}

/// Sizes of the single glTF buffer: positions (`f32`, 4 bytes each) then indices (`u32`).
pub struct GltfBufferLayout {
    /// Number of vertices (three coordinates each).
    pub vertex_count: usize,
    /// Number of indices.
    pub index_count: usize,
    /// Byte length of the position view, which starts at byte 0.
    pub position_bytes: usize,
    /// Byte length of the index view, which starts at byte `position_bytes`.
    pub index_bytes: usize,
    /// Byte length of the whole buffer.
    pub buffer_bytes: usize,
}

/// Checks the mesh and computes the glTF buffer layout for it.
pub fn gltf_buffer_layout(positions_len: usize, indices_len: usize) -> (r: Result<
    GltfBufferLayout,
    MeshExportError,
>)
    requires
        4 * positions_len <= isize::MAX,
        4 * indices_len <= isize::MAX,
    ensures
        match r {
            Ok(l) => {
                &&& mesh_buffers_result(positions_len as int, indices_len as int) is Ok
                &&& l.vertex_count == positions_len / 3
                &&& l.index_count == indices_len
                &&& l.position_bytes == 4 * positions_len
                &&& l.index_bytes == 4 * indices_len
                &&& l.buffer_bytes == 4 * positions_len + 4 * indices_len
            },
            Err(e) => mesh_buffers_result(positions_len as int, indices_len as int) == Err::<
                (),
                MeshExportError,
            >(e),
        },
{
    check_mesh_buffers(positions_len, indices_len)?;
    let position_bytes = positions_len * 4;
    let index_bytes = indices_len * 4;
    Ok(GltfBufferLayout {
        vertex_count: positions_len / 3,
        index_count: indices_len,
        position_bytes,
        index_bytes,
        buffer_bytes: position_bytes + index_bytes,
    })
}

/// The four little-endian bytes of `v`.
pub open spec fn u32_le(v: u32) -> Seq<u8> {
    seq![
        (v % 256) as u8,
        ((v / 256) % 256) as u8,
        ((v / 65536) % 256) as u8,
        (v / 16777216) as u8,
    ]
}

/// The little-endian bytes of each word of `words`, in order.
pub open spec fn le_bytes(words: Seq<u32>) -> Seq<u8>
    decreases words.len(),
{
    if words.len() == 0 {
        Seq::empty()
    } else {
        le_bytes(words.drop_last()) + u32_le(words.last())
    }
}

/// Four bytes per word.
pub proof fn lemma_le_bytes_len(words: Seq<u32>)
    ensures
        le_bytes(words).len() == 4 * words.len(),
    decreases words.len(),
{
    if words.len() > 0 {
        lemma_le_bytes_len(words.drop_last());
    }
}

/// The word stored little-endian in four bytes.
pub open spec fn u32_from_le(b0: u8, b1: u8, b2: u8, b3: u8) -> int {
    b0 + 256 * b1 + 65536 * b2 + 16777216 * b3
}

/// Reading four little-endian bytes back gives the word that was written.
pub proof fn lemma_u32_le_read_back(v: u32)
    ensures
        u32_from_le(u32_le(v)[0], u32_le(v)[1], u32_le(v)[2], u32_le(v)[3]) == v,
{
    assert((v % 256) + 256 * ((v / 256) % 256) + 65536 * ((v / 65536) % 256) + 16777216 * (v
        / 16777216) == v) by (bit_vector);
}

/// Encoding a concatenation encodes each part in turn.
pub proof fn lemma_le_bytes_concat(a: Seq<u32>, b: Seq<u32>)
    ensures
        le_bytes(a + b) == le_bytes(a) + le_bytes(b),
    decreases b.len(),
{
    if b.len() == 0 {
        assert(a + b =~= a);
        assert(le_bytes(a) + le_bytes(b) =~= le_bytes(a));
    } else {
        lemma_le_bytes_concat(a, b.drop_last());
        assert((a + b).drop_last() =~= a + b.drop_last());
        assert((a + b).last() == b.last());
        assert(le_bytes(a + b) =~= le_bytes(a) + le_bytes(b));
    }
}

/// Word `k` occupies bytes `4k .. 4k + 4` of the encoding and reads back as itself.
pub proof fn lemma_le_bytes_read_back(words: Seq<u32>, k: int)
    requires
        0 <= k < words.len(),
    ensures
        le_bytes(words).subrange(4 * k, 4 * k + 4) == u32_le(words[k]),
        u32_from_le(
            le_bytes(words)[4 * k],
            le_bytes(words)[4 * k + 1],
            le_bytes(words)[4 * k + 2],
            le_bytes(words)[4 * k + 3],
        ) == words[k],
{
    let front = words.take(k);
    let rest = words.skip(k);
    assert(words =~= front + rest);
    assert(rest =~= seq![words[k]] + rest.skip(1));
    lemma_le_bytes_concat(front, rest);
    lemma_le_bytes_concat(seq![words[k]], rest.skip(1));
    lemma_le_bytes_len(front);
    let one = seq![words[k]];
    assert(one.drop_last() =~= Seq::<u32>::empty());
    assert(le_bytes(one.drop_last()) == Seq::<u8>::empty());
    assert(one.last() == words[k]);
    assert(le_bytes(one) =~= u32_le(words[k]));
    let all = le_bytes(words);
    assert(all =~= le_bytes(front) + (u32_le(words[k]) + le_bytes(rest.skip(1))));
    assert(all.subrange(4 * k, 4 * k + 4) =~= u32_le(words[k]));
    lemma_u32_le_read_back(words[k]);
}

fn push_le_words(out: &mut Vec<u8>, words: &Vec<u32>)
    ensures
        final(out)@ == old(out)@ + le_bytes(words@),
{
    let ghost before = out@;
    let mut i: usize = 0;
    while i < words.len()
        invariant
            i <= words@.len(),
            out@ == before + le_bytes(words@.take(i as int)),
        decreases words.len() - i,
    {
        let v = words[i];
        out.push((v % 256) as u8);
        out.push(((v / 256) % 256) as u8);
        out.push(((v / 65536) % 256) as u8);
        out.push((v / 16777216) as u8);
        assert(words@.take(i as int + 1).drop_last() =~= words@.take(i as int));
        assert(out@ =~= before + le_bytes(words@.take(i as int + 1)));
        i = i + 1;
    }
    assert(words@.take(words@.len() as int) =~= words@);
}

/// The glTF binary buffer: position coordinates (as `f32` bit patterns) then indices,
/// each word little-endian.
pub fn gltf_binary_buffer(position_bits: &Vec<u32>, indices: &Vec<u32>) -> (bin: Vec<u8>)
    ensures
        bin@ == le_bytes(position_bits@) + le_bytes(indices@),
        bin@.len() == 4 * position_bits@.len() + 4 * indices@.len(),
{
    let mut bin: Vec<u8> = Vec::new();
    push_le_words(&mut bin, position_bits);
    push_le_words(&mut bin, indices);
    proof {
        lemma_le_bytes_len(position_bits@);
        lemma_le_bytes_len(indices@);
        assert(bin@ =~= le_bytes(position_bits@) + le_bytes(indices@));
    }
    bin
}

/// The buffer built for a mesh is exactly as long as the layout computed for it says.
pub proof fn lemma_binary_buffer_matches_layout(position_bits: Seq<u32>, indices: Seq<u32>)
    ensures
        (le_bytes(position_bits) + le_bytes(indices)).len() == 4 * position_bits.len() + 4
            * indices.len(),
{
    lemma_le_bytes_len(position_bits);
    lemma_le_bytes_len(indices);
}

/// Reading the index view of the buffer built for a mesh gives back the mesh's indices: index `k`
/// is the little-endian word at byte `4 * position_count + 4 * k`, i.e. at the index view's
/// offset `position_bytes` from `gltf_buffer_layout`.
pub proof fn lemma_gltf_index_read_back(position_bits: Seq<u32>, indices: Seq<u32>, k: int)
    requires
        0 <= k < indices.len(),
    ensures
        ({
            let bin = le_bytes(position_bits) + le_bytes(indices);
            let at = 4 * position_bits.len() + 4 * k;
            u32_from_le(bin[at], bin[at + 1], bin[at + 2], bin[at + 3]) == indices[k]
        }),
{
    lemma_le_bytes_len(position_bits);
    lemma_le_bytes_len(indices);
    lemma_le_bytes_read_back(indices, k);
}

/// Standard base64 (RFC 4648 alphabet, `=` padding) of `bytes`, as computed by the `base64` crate.
pub uninterp spec fn base64_standard(bytes: Seq<u8>) -> Seq<char>;

/// Calls `base64::engine::general_purpose::STANDARD.encode`. Claimed: the result is the
/// standard padded encoding of exactly the given bytes, `4 * ceil(len / 3)` characters long
/// (the crate's `encoded_len` with padding). Excluded: inputs whose encoded length would
/// overflow `usize`, on which the crate panics.
#[verifier::external_body]
fn base64_standard_encode(bytes: &[u8]) -> (s: String)
    requires
        4 * (bytes@.len() / 3 + 1) <= usize::MAX,
    ensures
        s@ == base64_standard(bytes@),
        s@.len() == 4 * ((bytes@.len() + 2) / 3),
{
    base64::engine::general_purpose::STANDARD.encode(bytes)
}

/// The glTF buffer URI: a base64 `data:` URI of `bin`.
pub fn gltf_data_uri(bin: &Vec<u8>) -> (uri: String)
    requires
        4 * (bin@.len() / 3 + 1) <= usize::MAX,
    ensures
        uri@ == "data:application/octet-stream;base64,"@ + base64_standard(bin@),
{
    let mut uri = String::from_str("data:application/octet-stream;base64,");
    let encoded = base64_standard_encode(bin.as_slice());
    uri.append(encoded.as_str());
    uri
}

} // verus!
