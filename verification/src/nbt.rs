//! Streaming little-endian NBT writer and the `.mcstructure` file built on it.
use vstd::prelude::*;
use vstd::string::*;
use vstd::utf8::*;

verus! {

pub const TAG_END: u8 = 0;

pub const TAG_INT: u8 = 3;

pub const TAG_STRING: u8 = 8;

pub const TAG_LIST: u8 = 9;

pub const TAG_COMPOUND: u8 = 10;

/// Block-state version written with every palette entry.
pub const BLOCK_VERSION: i32 = 18090528;

// ---------------------------------------------------------------------------
// Byte-level model of the encoding
// ---------------------------------------------------------------------------
/// Little-endian bytes of a `u16`.
pub open spec fn u16_le(v: u16) -> Seq<u8> {
    seq![(v % 256) as u8, (v / 256) as u8]
}

/// Little-endian bytes of a `u32`.
pub open spec fn u32_le(u: u32) -> Seq<u8> {
    seq![
        (u % 256) as u8,
        ((u / 256) % 256) as u8,
        ((u / 65536) % 256) as u8,
        (u / 16777216) as u8,
    ]
}

/// Little-endian two's-complement bytes of an `i32`.
pub open spec fn i32_le(v: i32) -> Seq<u8> {
    u32_le(v as u32)
}

/// The `i32` that four little-endian bytes encode.
pub open spec fn i32_from_le(b: Seq<u8>) -> i32 {
    (b[0] as int + b[1] as int * 256 + b[2] as int * 65536 + b[3] as int * 16777216) as u32 as i32
}

/// An NBT string payload: its byte length as a `u16` (truncated), then the bytes.
pub open spec fn string_data(s: Seq<u8>) -> Seq<u8> {
    u16_le(s.len() as u16) + s
}

/// A tag byte followed by the tag's name.
pub open spec fn named(tag: u8, name: Seq<u8>) -> Seq<u8> {
    seq![tag] + string_data(name)
}

/// The concatenated little-endian encodings of a run of `i32`s.
pub open spec fn ints_le(data: Seq<i32>) -> Seq<u8>
    decreases data.len(),
{
    if data.len() == 0 {
        Seq::empty()
    } else {
        ints_le(data.drop_last()) + i32_le(data.last())
    }
}

/// `count` copies of the encoding of `-1`.
pub open spec fn neg_ones(count: nat) -> Seq<u8> {
    Seq::new(count * 4, |i: int| 255u8)
}

/// Each `i32` takes four bytes.
pub proof fn lemma_ints_le_len(data: Seq<i32>)
    ensures
        ints_le(data).len() == data.len() * 4,
    decreases data.len(),
{
    if data.len() > 0 {
        lemma_ints_le_len(data.drop_last());
    }
}

/// Decoding the four bytes that encode an `i32` gives that `i32` back.
pub proof fn lemma_i32_le_roundtrip(v: i32)
    ensures
        i32_le(v).len() == 4,
        i32_from_le(i32_le(v)) == v,
{
    let u = v as u32;
    assert((u % 256) + ((u / 256) % 256) * 256 + ((u / 65536) % 256) * 65536 + (u / 16777216)
        * 16777216 == u) by (nonlinear_arith);
    assert((v as u32) as i32 == v) by (bit_vector);
}

/// The `k`-th group of four bytes in a run of encoded `i32`s encodes the `k`-th value.
proof fn lemma_ints_le_at(data: Seq<i32>, k: int)
    requires
        0 <= k < data.len(),
    ensures
        ints_le(data).subrange(4 * k, 4 * k + 4) == i32_le(data[k]),
    decreases data.len(),
{
    lemma_ints_le_len(data);
    lemma_ints_le_len(data.drop_last());
    let front = ints_le(data.drop_last());
    let back = i32_le(data.last());
    lemma_i32_le_roundtrip(data.last());
    if k < data.len() - 1 {
        lemma_ints_le_at(data.drop_last(), k);
        assert(ints_le(data).subrange(4 * k, 4 * k + 4) =~= front.subrange(4 * k, 4 * k + 4));
    } else {
        assert(ints_le(data).subrange(4 * k, 4 * k + 4) =~= back);
    }
}

/// Where the three values of the `size` list start in a structure file.
pub open spec fn size_offset() -> int {
    (named(TAG_COMPOUND, "".spec_bytes()) + named(TAG_INT, "format_version".spec_bytes()) + i32_le(
        1,
    ) + named(TAG_LIST, "size".spec_bytes()) + seq![TAG_INT] + i32_le(3)).len() as int
}

/// Where the slot values start in a structure file: after the document's head and the
/// headers of the `block_indices` list and of its first layer.
pub open spec fn slots_offset(size: [i32; 3], count: int) -> int {
    (structure_head(size).len() + (named(TAG_LIST, "block_indices".spec_bytes()) + seq![TAG_LIST]
        + i32_le(2) + seq![TAG_INT] + i32_le(count as i32)).len()) as int
}

proof fn lemma_head_size(size: [i32; 3])
    ensures
        size_offset() + 12 <= structure_head(size).len(),
        forall|a: int|
            0 <= a < 3 ==> #[trigger] i32_from_le(
                structure_head(size).subrange(size_offset() + 4 * a, size_offset() + 4 * a + 4),
            ) == size[a],
{
    let head = structure_head(size);
    let sp = named(TAG_COMPOUND, "".spec_bytes()) + named(TAG_INT, "format_version".spec_bytes())
        + i32_le(1) + named(TAG_LIST, "size".spec_bytes()) + seq![TAG_INT] + i32_le(3);
    let so = size_offset();
    lemma_i32_le_roundtrip(size[0]);
    lemma_i32_le_roundtrip(size[1]);
    lemma_i32_le_roundtrip(size[2]);
    assert(so == sp.len());
    assert(head.subrange(so, so + 4) =~= i32_le(size[0]));
    assert(head.subrange(so + 4, so + 8) =~= i32_le(size[1]));
    assert(head.subrange(so + 8, so + 12) =~= i32_le(size[2]));
    assert forall|a: int| 0 <= a < 3 implies #[trigger] i32_from_le(
        head.subrange(size_offset() + 4 * a, size_offset() + 4 * a + 4),
    ) == size[a] by {
        if a == 1 {
            assert(so + 4 * a == so + 4);
        } else if a == 2 {
            assert(so + 4 * a == so + 8);
        }
    }
}

proof fn lemma_head_prefix(size: [i32; 3], indices: Seq<i32>, palette: Seq<Seq<char>>)
    ensures
        structure_bytes(size, indices, palette).subrange(0, structure_head(size).len() as int)
            == structure_head(size),
{
    assert(structure_bytes(size, indices, palette).subrange(0, structure_head(size).len() as int)
        =~= structure_head(size));
}

#[verifier::rlimit(40)]
proof fn lemma_slots(size: [i32; 3], indices: Seq<i32>, palette: Seq<Seq<char>>)
    requires
        indices.len() <= i32::MAX,
    ensures
        ({
            let bytes = structure_bytes(size, indices, palette);
            let off = slots_offset(size, indices.len() as int);
            &&& i32_from_le(bytes.subrange(off - 4, off)) == indices.len()
            &&& forall|k: int|
                0 <= k < indices.len() ==> #[trigger] i32_from_le(
                    bytes.subrange(off + 4 * k, off + 4 * k + 4),
                ) == indices[k]
        }),
{
    let bytes = structure_bytes(size, indices, palette);
    let head = structure_head(size);
    let count = i32_le(indices.len() as i32);
    let pre = named(TAG_LIST, "block_indices".spec_bytes()) + seq![TAG_LIST] + i32_le(2) + seq![
        TAG_INT,
    ] + count;
    let ints = ints_le(indices);
    let off = slots_offset(size, indices.len() as int);
    lemma_ints_le_len(indices);
    lemma_i32_le_roundtrip(indices.len() as i32);
    assert(off == head.len() + pre.len());
    assert forall|m: int| 0 <= m < ints.len() implies bytes[off + m] == ints[m] by {}
    assert forall|m: int| 0 <= m < 4 implies bytes[off - 4 + m] == count[m] by {}
    assert(bytes.subrange(off - 4, off) =~= count);
    assert forall|k: int| 0 <= k < indices.len() implies #[trigger] i32_from_le(
        bytes.subrange(off + 4 * k, off + 4 * k + 4),
    ) == indices[k] by {
        lemma_ints_le_at(indices, k);
        lemma_i32_le_roundtrip(indices[k]);
        assert(bytes.subrange(off + 4 * k, off + 4 * k + 4) =~= ints.subrange(4 * k, 4 * k + 4));
    }
}

/// Reading a structure file back: the `size` list gives the structure's size, the four bytes
/// just before the slots give the slot count, and each following group of four bytes gives
/// one slot, in order.
pub proof fn structure_file_reads_back(
    size: [i32; 3],
    indices: Seq<i32>,
    palette: Seq<Seq<char>>,
)
    requires
        indices.len() <= i32::MAX,
    ensures
        ({
            let bytes = structure_bytes(size, indices, palette);
            let off = slots_offset(size, indices.len() as int);
            &&& forall|a: int|
                0 <= a < 3 ==> #[trigger] i32_from_le(
                    bytes.subrange(size_offset() + 4 * a, size_offset() + 4 * a + 4),
                ) == size[a]
            &&& i32_from_le(bytes.subrange(off - 4, off)) == indices.len()
            &&& forall|k: int|
                0 <= k < indices.len() ==> #[trigger] i32_from_le(
                    bytes.subrange(off + 4 * k, off + 4 * k + 4),
                ) == indices[k]
        }),
{
    let bytes = structure_bytes(size, indices, palette);
    let hl = structure_head(size).len() as int;
    lemma_slots(size, indices, palette);
    lemma_head_size(size);
    lemma_head_prefix(size, indices, palette);
    assert forall|a: int| 0 <= a < 3 implies #[trigger] i32_from_le(
        bytes.subrange(size_offset() + 4 * a, size_offset() + 4 * a + 4),
    ) == size[a] by {
        assert(bytes.subrange(size_offset() + 4 * a, size_offset() + 4 * a + 4) =~= bytes.subrange(
            0,
            hl,
        ).subrange(size_offset() + 4 * a, size_offset() + 4 * a + 4));
    }
}

// ---------------------------------------------------------------------------
// Exec byte helpers
// ---------------------------------------------------------------------------
fn push_u16_le(w: &mut Vec<u8>, v: u16)
    ensures
        final(w)@ == old(w)@ + u16_le(v),
{
    w.push((v % 256) as u8);
    w.push((v / 256) as u8);
}

fn push_i32_le(w: &mut Vec<u8>, v: i32)
    ensures
        final(w)@ == old(w)@ + i32_le(v),
{
    let u = v as u32;
    w.push((u % 256) as u8);
    w.push(((u / 256) % 256) as u8);
    w.push(((u / 65536) % 256) as u8);
    w.push((u / 16777216) as u8);
}

pub(crate) fn push_bytes(w: &mut Vec<u8>, b: &[u8])
    ensures
        final(w)@ == old(w)@ + b@,
{
    let ghost start = w@;
    let mut i: usize = 0;
    while i < b.len()
        invariant
            i <= b.len(),
            w@ == start + b@.subrange(0, i as int),
        decreases b.len() - i,
    {
        w.push(b[i]);
        i = i + 1;
        assert(w@ == start + b@.subrange(0, i as int));
    }
    assert(b@.subrange(0, b.len() as int) == b@);
}

// ---------------------------------------------------------------------------
// The writer
// ---------------------------------------------------------------------------
/// Writes NBT tags, one after another, onto a byte sink.
pub struct NbtWriter {
    w: Vec<u8>,
}

impl View for NbtWriter {
    type V = Seq<u8>;

    /// Everything written so far, the sink's initial contents first.
    closed spec fn view(&self) -> Seq<u8> {
        self.w@
    }
}

impl NbtWriter {
    /// A writer that appends to `w`.
    pub fn new(w: Vec<u8>) -> (res: Self)
        ensures
            res@ == w@,
    {
        NbtWriter { w }
    }

    /// The sink, with everything written to it.
    pub fn into_inner(self) -> (res: Vec<u8>)
        ensures
            res@ == self@,
    {
        self.w
    }

    fn write_u8(&mut self, b: u8)
        ensures
            final(self)@ == old(self)@.push(b),
    {
        self.w.push(b);
    }

    fn write_u16(&mut self, v: u16)
        ensures
            final(self)@ == old(self)@ + u16_le(v),
    {
        push_u16_le(&mut self.w, v);
    }

    fn write_i32(&mut self, v: i32)
        ensures
            final(self)@ == old(self)@ + i32_le(v),
    {
        push_i32_le(&mut self.w, v);
    }

    fn write_string_data(&mut self, s: &str)
        ensures
            final(self)@ == old(self)@ + string_data(s.spec_bytes()),
    {
        let bytes = s.as_bytes();
        self.write_u16(bytes.len() as u16);
        push_bytes(&mut self.w, bytes);
    }

    /// Opens a compound tag named `name`.
    pub fn compound_header(&mut self, name: &str)
        ensures
            final(self)@ == old(self)@ + named(TAG_COMPOUND, name.spec_bytes()),
    {
        self.write_u8(TAG_COMPOUND);
        self.write_string_data(name);
    }

    /// Closes the innermost open compound tag.
    pub fn compound_end(&mut self)
        ensures
            final(self)@ == old(self)@.push(TAG_END),
    {
        self.write_u8(TAG_END);
    }

    /// An int tag named `name` holding `value`.
    pub fn int_tag(&mut self, name: &str, value: i32)
        ensures
            final(self)@ == old(self)@ + named(TAG_INT, name.spec_bytes()) + i32_le(value),
    {
        self.write_u8(TAG_INT);
        self.write_string_data(name);
        self.write_i32(value);
    }

    /// A string tag named `name` holding `value`.
    pub fn string_tag(&mut self, name: &str, value: &str)
        ensures
            final(self)@ == old(self)@ + named(TAG_STRING, name.spec_bytes()) + string_data(
                value.spec_bytes(),
            ),
    {
        self.write_u8(TAG_STRING);
        self.write_string_data(name);
        self.write_string_data(value);
    }

    /// The header of a list tag named `name` of `len` elements of type `element_type`.
    pub fn list_header(&mut self, name: &str, element_type: u8, len: i32)
        ensures
            final(self)@ == old(self)@ + named(TAG_LIST, name.spec_bytes()) + seq![element_type]
                + i32_le(len),
    {
        self.write_u8(TAG_LIST);
        self.write_string_data(name);
        self.write_u8(element_type);
        self.write_i32(len);
    }

    /// The header of an element of a list of lists.
    pub fn nameless_list_header(&mut self, element_type: u8, len: i32)
        ensures
            final(self)@ == old(self)@ + seq![element_type] + i32_le(len),
    {
        self.write_u8(element_type);
        self.write_i32(len);
    }

    /// An element of an int list.
    pub fn nameless_int(&mut self, value: i32)
        ensures
            final(self)@ == old(self)@ + i32_le(value),
    {
        self.write_i32(value);
    }

    /// The elements of an int list.
    pub fn int_list(&mut self, data: &[i32])
        ensures
            final(self)@ == old(self)@ + ints_le(data@),
    {
        let ghost start = self.w@;
        let mut i: usize = 0;
        while i < data.len()
            invariant
                i <= data.len(),
                self.w@ == start + ints_le(data@.subrange(0, i as int)),
            decreases data.len() - i,
        {
            let ghost before = self.w@;
            push_i32_le(&mut self.w, data[i]);
            proof {
                let pre = data@.subrange(0, i as int);
                let next = data@.subrange(0, i + 1);
                assert(next.drop_last() == pre);
                assert(next.last() == data@[i as int]);
                assert(self.w@ == start + ints_le(next));
            }
            i = i + 1;
        }
        assert(data@.subrange(0, data.len() as int) == data@);
    }

    /// `count` int-list elements, each `-1`.
    pub fn int_neg_ones(&mut self, count: usize)
        ensures
            final(self)@ == old(self)@ + neg_ones(count as nat),
    {
        let ghost start = self.w@;
        let mut i: usize = 0;
        while i < count
            invariant
                i <= count,
                self.w@ == start + neg_ones(i as nat),
            decreases count - i,
        {
            self.w.push(255u8);
            self.w.push(255u8);
            self.w.push(255u8);
            self.w.push(255u8);
            i = i + 1;
            assert(self.w@ == start + neg_ones(i as nat));
        }
    }
}


// ---------------------------------------------------------------------------
// .mcstructure
// ---------------------------------------------------------------------------
/// `x` capped at `usize::MAX`.
pub open spec fn sat_usize(x: int) -> int {
    if x > usize::MAX {
        usize::MAX as int
    } else {
        x
    }
}

/// `v`, or 0 where it is negative.
pub open spec fn clamp0(v: i32) -> int {
    if v < 0 {
        0
    } else {
        v as int
    }
}

/// The number of cells of a structure of the given size: negative sides count as 0,
/// and the two products saturate at `usize::MAX`, one after the other.
pub open spec fn structure_volume(size: [i32; 3]) -> int {
    sat_usize(sat_usize(clamp0(size[0]) * clamp0(size[1])) * clamp0(size[2]))
}

/// Where in `block_indices` a position is stored: `(x-1)*sy*sz + (y-1)*sz + (z-1)`,
/// each term taken only where its coordinate is positive.
pub open spec fn position_index(size: [i32; 3], x: i32, y: i32, z: i32) -> int {
    (if x > 0 {
        (x - 1) * size[1] * size[2]
    } else {
        0
    }) + (if y > 0 {
        (y - 1) * size[2]
    } else {
        0
    }) + (if z > 0 {
        z - 1
    } else {
        0
    })
}

/// Whether `set_block` accepts a position: every coordinate in `0..=size`.
pub open spec fn position_in_bounds(size: [i32; 3], pos: [i32; 3]) -> bool {
    0 <= pos[0] <= size[0] && 0 <= pos[1] <= size[1] && 0 <= pos[2] <= size[2]
}

/// The palette after `id` has been looked up: unchanged where it holds `id`, else `id` appended.
pub open spec fn palette_with(palette: Seq<Seq<char>>, id: Seq<char>) -> Seq<Seq<char>> {
    if palette.contains(id) {
        palette
    } else {
        palette.push(id)
    }
}

/// Slots and palette after `set_block(pos, id)`.
pub open spec fn set_block_model(
    size: [i32; 3],
    indices: Seq<i32>,
    palette: Seq<Seq<char>>,
    pos: [i32; 3],
    id: Seq<char>,
) -> (Seq<i32>, Seq<Seq<char>>) {
    let idx = position_index(size, pos[0], pos[1], pos[2]);
    if position_in_bounds(size, pos) && 0 <= idx < indices.len() {
        let pal = palette_with(palette, id);
        (indices.update(idx, pal.index_of(id) as i32), pal)
    } else {
        (indices, palette)
    }
}

/// After `set_block(pos, id)` at a position it accepts, the slot at `pos` reads back `id`
/// through the palette, every other slot is unchanged, the old palette entries keep their
/// places, and the palette still names each block once.
pub proof fn set_block_reads_back(
    size: [i32; 3],
    indices: Seq<i32>,
    palette: Seq<Seq<char>>,
    pos: [i32; 3],
    id: Seq<char>,
)
    requires
        no_duplicates(palette),
        palette.len() < i32::MAX,
        position_in_bounds(size, pos),
        0 <= position_index(size, pos[0], pos[1], pos[2]) < indices.len(),
    ensures
        ({
            let r = set_block_model(size, indices, palette, pos, id);
            let k = position_index(size, pos[0], pos[1], pos[2]);
            &&& r.0.len() == indices.len()
            &&& 0 <= r.0[k] < r.1.len()
            &&& r.1[r.0[k] as int] == id
            &&& forall|j: int| 0 <= j < indices.len() && j != k ==> #[trigger] r.0[j] == indices[j]
            &&& r.1.len() >= palette.len()
            &&& forall|j: int| 0 <= j < palette.len() ==> #[trigger] r.1[j] == palette[j]
            &&& no_duplicates(r.1)
        }),
{
    let pal = palette_with(palette, id);
    if !palette.contains(id) {
        assert(pal[palette.len() as int] == id);
        assert(pal.contains(id));
        assert forall|i: int, j: int|
            0 <= i < pal.len() && 0 <= j < pal.len() && i != j implies pal[i] != pal[j] by {
            if i == palette.len() as int {
                assert(pal[j] == palette[j]);
            } else if j == palette.len() as int {
                assert(pal[i] == palette[i]);
            }
        }
    }
    assert(pal.contains(id));
    let w = pal.index_of(id);
    assert(0 <= w < pal.len() && pal[w] == id);
}

/// Slots and palette of a fresh structure of the given size after `set_block` for each
/// `(position, id)` of `blocks`, in order.
pub open spec fn blocks_model(size: [i32; 3], blocks: Seq<([i32; 3], Seq<char>)>) -> (
    Seq<i32>,
    Seq<Seq<char>>,
)
    decreases blocks.len(),
{
    if blocks.len() == 0 {
        (Seq::new(structure_volume(size) as nat, |i: int| -1i32), Seq::empty())
    } else {
        let prev = blocks_model(size, blocks.drop_last());
        set_block_model(size, prev.0, prev.1, blocks.last().0, blocks.last().1)
    }
}

pub open spec fn no_duplicates(palette: Seq<Seq<char>>) -> bool {
    forall|i: int, j: int|
        0 <= i < palette.len() && 0 <= j < palette.len() && i != j ==> palette[i] != palette[j]
}

/// Bytes of one `block_palette` entry.
pub open spec fn palette_entry_bytes(name: Seq<char>) -> Seq<u8> {
    named(TAG_STRING, "name".spec_bytes()) + string_data(encode_utf8(name)) + named(
        TAG_COMPOUND,
        "states".spec_bytes(),
    ) + seq![TAG_END] + named(TAG_INT, "version".spec_bytes()) + i32_le(BLOCK_VERSION) + seq![
        TAG_END,
    ]
}

pub open spec fn palette_bytes(palette: Seq<Seq<char>>) -> Seq<u8>
    decreases palette.len(),
{
    if palette.len() == 0 {
        Seq::empty()
    } else {
        palette_bytes(palette.drop_last()) + palette_entry_bytes(palette.last())
    }
}

/// The root tag's opening, the format version and the size list, then the opening of
/// the `structure` compound.
pub open spec fn structure_head(size: [i32; 3]) -> Seq<u8> {
    named(TAG_COMPOUND, "".spec_bytes()) + named(TAG_INT, "format_version".spec_bytes()) + i32_le(1)
        + named(TAG_LIST, "size".spec_bytes()) + seq![TAG_INT] + i32_le(3) + i32_le(size[0])
        + i32_le(size[1]) + i32_le(size[2]) + named(TAG_COMPOUND, "structure".spec_bytes())
}

/// The two block layers: the primary one holds the slots, the secondary one is all void.
pub open spec fn layers_bytes(indices: Seq<i32>) -> Seq<u8> {
    named(TAG_LIST, "block_indices".spec_bytes()) + seq![TAG_LIST] + i32_le(2) + seq![TAG_INT]
        + i32_le(indices.len() as i32) + ints_le(indices) + seq![TAG_INT] + i32_le(
        indices.len() as i32,
    ) + neg_ones(indices.len())
}

/// The empty entity list and the palette's opening, up to its entries.
pub open spec fn palette_head(count: int) -> Seq<u8> {
    named(TAG_LIST, "entities".spec_bytes()) + seq![TAG_END] + i32_le(0) + named(
        TAG_COMPOUND,
        "palette".spec_bytes(),
    ) + named(TAG_COMPOUND, "default".spec_bytes()) + named(
        TAG_LIST,
        "block_palette".spec_bytes(),
    ) + seq![TAG_COMPOUND] + i32_le(count as i32)
}

/// Everything after the palette entries.
pub open spec fn structure_tail() -> Seq<u8> {
    named(TAG_COMPOUND, "block_position_data".spec_bytes()) + seq![TAG_END] + seq![
        TAG_END,
        TAG_END,
        TAG_END,
    ] + named(TAG_LIST, "structure_world_origin".spec_bytes()) + seq![TAG_INT] + i32_le(3)
        + i32_le(2) + i32_le(2) + i32_le(2) + seq![TAG_END]
}

/// The whole `.mcstructure` document.
pub open spec fn structure_bytes(size: [i32; 3], indices: Seq<i32>, palette: Seq<Seq<char>>) -> Seq<
    u8,
> {
    structure_head(size) + layers_bytes(indices) + palette_head(palette.len() as int)
        + palette_bytes(palette) + structure_tail()
}

/// A Bedrock structure: a box of block slots, each `-1` (void) or an index into a palette
/// of block names.
pub struct McStructure {
    size: [i32; 3],
    block_indices: Vec<i32>,
    palette: Vec<String>,
}

impl McStructure {
    pub closed spec fn size(&self) -> [i32; 3] {
        self.size
    }

    pub closed spec fn indices(&self) -> Seq<i32> {
        self.block_indices@
    }

    pub closed spec fn palette(&self) -> Seq<Seq<char>> {
        self.palette@.map_values(|s: String| s@)
    }

    /// The slots hold one entry per cell and the palette names each block once.
    pub open spec fn wf(&self) -> bool {
        &&& self.indices().len() == structure_volume(self.size())
        &&& no_duplicates(self.palette())
    }

    /// Every slot is void or names a palette entry.
    pub open spec fn indices_valid(&self) -> bool {
        forall|i: int|
            0 <= i < self.indices().len() ==> #[trigger] self.indices()[i] == -1 || (0
                <= self.indices()[i] < self.palette().len())
    }

    /// The file this structure is written as.
    pub open spec fn spec_bytes(&self) -> Seq<u8> {
        structure_bytes(self.size(), self.indices(), self.palette())
    }

    /// An empty structure of the given size: every slot void, no palette.
    pub fn new(size: [i32; 3]) -> (res: Self)
        requires
            structure_volume(size) * 4 <= isize::MAX,
        ensures
            res.wf(),
            res.indices_valid(),
            res.size() == size,
            res.indices() == Seq::new(structure_volume(size) as nat, |i: int| -1i32),
            res.palette() == Seq::<Seq<char>>::empty(),
    {
        let a: usize = if size[0] < 0 {
            0
        } else {
            size[0] as usize
        };
        let b: usize = if size[1] < 0 {
            0
        } else {
            size[1] as usize
        };
        let c: usize = if size[2] < 0 {
            0
        } else {
            size[2] as usize
        };
        let ab: usize = match a.checked_mul(b) {
            Some(p) => p,
            None => usize::MAX,
        };
        let amount: usize = match ab.checked_mul(c) {
            Some(p) => p,
            None => usize::MAX,
        };
        let block_indices = vec![-1i32; amount];
        let res = McStructure { size, block_indices, palette: Vec::new() };
        assert(res.indices() == Seq::new(structure_volume(size) as nat, |i: int| -1i32));
        assert(res.palette() == Seq::<Seq<char>>::empty());
        res
    }

    fn index_from_pos(size: [i32; 3], x: i32, y: i32, z: i32) -> (res: i128)
        ensures
            res == position_index(size, x, y, z),
    {
        let mut amount: i128 = 0;
        if x > 0 {
            let xm: i128 = x as i128 - 1;
            let s1: i128 = size[1] as i128;
            let s2: i128 = size[2] as i128;
            assert(-0x1_0000_0000_0000_0000_0000_0000 <= xm * s1 * s2
                <= 0x1_0000_0000_0000_0000_0000_0000) by (nonlinear_arith)
                requires
                    0 <= xm < 0x1_0000_0000,
                    -0x1_0000_0000 <= s1 <= 0x1_0000_0000,
                    -0x1_0000_0000 <= s2 <= 0x1_0000_0000,
            ;
            assert(-0x1_0000_0000_0000_0000 <= xm * s1 <= 0x1_0000_0000_0000_0000) by (
            nonlinear_arith)
                requires
                    0 <= xm < 0x1_0000_0000,
                    -0x1_0000_0000 <= s1 <= 0x1_0000_0000,
            ;
            let t = xm * s1 * s2;
            amount = amount + t;
        }
        if y > 0 {
            let ym: i128 = y as i128 - 1;
            let s2: i128 = size[2] as i128;
            assert(-0x1_0000_0000_0000_0000 <= ym * s2 <= 0x1_0000_0000_0000_0000) by (
            nonlinear_arith)
                requires
                    0 <= ym < 0x1_0000_0000,
                    -0x1_0000_0000 <= s2 <= 0x1_0000_0000,
            ;
            amount = amount + ym * s2;
        }
        if z > 0 {
            amount = amount + (z as i128 - 1);
        }
        amount
    }

    fn palette_index(&mut self, type_id: &str) -> (res: usize)
        requires
            no_duplicates(old(self).palette()),
        ensures
            final(self).palette() == palette_with(old(self).palette(), type_id@),
            res < final(self).palette().len(),
            final(self).palette()[res as int] == type_id@,
            final(self).size == old(self).size,
            final(self).block_indices == old(self).block_indices,
            no_duplicates(final(self).palette()),
    {
        let key = type_id.to_owned();
        let mut i: usize = 0;
        while i < self.palette.len()
            invariant
                i <= self.palette.len(),
                key@ == type_id@,
                *self == *old(self),
                no_duplicates(self.palette()),
                forall|j: int| 0 <= j < i ==> #[trigger] self.palette@[j]@ != type_id@,
            decreases self.palette.len() - i,
        {
            if self.palette[i] == key {
                proof {
                    assert(self.palette()[i as int] == type_id@);
                    assert(self.palette().contains(type_id@));
                }
                return i;
            }
            i = i + 1;
        }
        let ghost old_pal = self.palette();
        assert(!old_pal.contains(type_id@)) by {
            if old_pal.contains(type_id@) {
                let j = choose|j: int| 0 <= j < old_pal.len() && old_pal[j] == type_id@;
                assert(self.palette@[j]@ == type_id@);
            }
        }
        let n = self.palette.len();
        self.palette.push(key);
        assert(self.palette() == old_pal.push(type_id@));
        n
    }

    /// Puts block `type_id` at `pos`, adding the name to the palette where it is new.
    /// A position outside `0..=size` on some axis, or whose slot lies outside the slots,
    /// changes nothing.
    pub fn set_block(&mut self, pos: [i32; 3], type_id: &str)
        requires
            old(self).wf(),
        ensures
            final(self).wf(),
            final(self).size() == old(self).size(),
            (final(self).indices(), final(self).palette()) == set_block_model(
                old(self).size(),
                old(self).indices(),
                old(self).palette(),
                pos,
                type_id@,
            ),
    {
        let (x, y, z) = (pos[0], pos[1], pos[2]);
        if x > self.size[0] || y > self.size[1] || z > self.size[2] || x < 0 || y < 0 || z < 0 {
            return ;
        }
        let idx = Self::index_from_pos(self.size, x, y, z);
        if idx < 0 || idx >= self.block_indices.len() as i128 {
            return ;
        }
        let p = self.palette_index(type_id);
        proof {
            let pal = self.palette();
            assert(pal[p as int] == type_id@);
            assert(pal.contains(type_id@));
            assert(pal.index_of(type_id@) == p);
        }
        self.block_indices.set(idx as usize, p as i32);
    }

    fn write_head(n: &mut NbtWriter, size: [i32; 3])
        ensures
            final(n)@ == old(n)@ + structure_head(size),
    {
        n.compound_header("");
        n.int_tag("format_version", 1);
        n.list_header("size", TAG_INT, 3);
        n.nameless_int(size[0]);
        n.nameless_int(size[1]);
        n.nameless_int(size[2]);
        n.compound_header("structure");
    }

    fn write_layers(n: &mut NbtWriter, indices: &Vec<i32>)
        ensures
            final(n)@ == old(n)@ + layers_bytes(indices@),
    {
        n.list_header("block_indices", TAG_LIST, 2);
        n.nameless_list_header(TAG_INT, indices.len() as i32);
        n.int_list(indices.as_slice());
        n.nameless_list_header(TAG_INT, indices.len() as i32);
        n.int_neg_ones(indices.len());
    }

    fn write_palette_head(n: &mut NbtWriter, count: usize)
        ensures
            final(n)@ == old(n)@ + palette_head(count as int),
    {
        n.list_header("entities", TAG_END, 0);
        n.compound_header("palette");
        n.compound_header("default");
        n.list_header("block_palette", TAG_COMPOUND, count as i32);
    }

    fn write_palette_entry(n: &mut NbtWriter, type_id: &str)
        ensures
            final(n)@ == old(n)@ + palette_entry_bytes(type_id@),
    {
        n.string_tag("name", type_id);
        n.compound_header("states");
        n.compound_end();
        n.int_tag("version", BLOCK_VERSION);
        n.compound_end();
    }

    fn write_tail(n: &mut NbtWriter)
        ensures
            final(n)@ == old(n)@ + structure_tail(),
    {
        n.compound_header("block_position_data");
        n.compound_end();
        n.compound_end();
        n.compound_end();
        n.compound_end();
        n.list_header("structure_world_origin", TAG_INT, 3);
        n.nameless_int(2);
        n.nameless_int(2);
        n.nameless_int(2);
        n.compound_end();
    }

    /// Writes the structure as an `.mcstructure` document after what `w` holds.
    pub fn write_file(&self, w: &mut Vec<u8>)
        ensures
            final(w)@ == old(w)@ + self.spec_bytes(),
    {
        let mut n = NbtWriter::new(Vec::new());
        Self::write_head(&mut n, self.size);
        Self::write_layers(&mut n, &self.block_indices);
        Self::write_palette_head(&mut n, self.palette.len());
        let ghost head = n@;
        let mut i: usize = 0;
        while i < self.palette.len()
            invariant
                i <= self.palette.len(),
                n@ == head + palette_bytes(self.palette().subrange(0, i as int)),
            decreases self.palette.len() - i,
        {
            Self::write_palette_entry(&mut n, self.palette[i].as_str());
            proof {
                let pre = self.palette().subrange(0, i as int);
                let next = self.palette().subrange(0, i + 1);
                assert(next.drop_last() == pre);
                assert(next.last() == self.palette@[i as int]@);
            }
            i = i + 1;
        }
        assert(self.palette().subrange(0, self.palette.len() as int) == self.palette());
        Self::write_tail(&mut n);
        let bytes = n.into_inner();
        assert(bytes@ =~= self.spec_bytes());
        push_bytes(w, bytes.as_slice());
    }
}

} // verus!
