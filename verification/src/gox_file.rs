//! The framing of a Goxel file as the `gox` crate reads it, and a check that
//! tells which byte strings it reads to the end without panicking.
//!
//! A file is the magic `GOX `, a version, then chunks: four type bytes, a
//! length, the data and a CRC, lengths and counts being little-endian `i32`.
//! The reader stops at the end of the bytes or at four zero type bytes. It
//! skips four type bytes that are not UTF-8 and reads nothing else for them.
//! Dictionaries (in `IMG `, `CAMR` and `LAYR` chunks) are lists of a key
//! size, the key, a value size and the value, read until their byte count
//! reaches the chunk's length or a key size is not positive. The reader
//! panics where it reads past the end, where an `i32` sum it forms
//! overflows, and on the values it cannot use: see [`chunk_end`].
use vstd::prelude::*;

verus! {

/// The little-endian two's-complement `i32` at `p`.
pub open spec fn le_i32(s: Seq<u8>, p: int) -> int {
    let u = s[p] + 256 * s[p + 1] + 65536 * s[p + 2] + 16777216 * s[p + 3];
    if u < 0x8000_0000 {
        u
    } else {
        u - 0x1_0000_0000
    }
}

/// Whether `v` fits in an `i32`.
pub open spec fn fits_i32(v: int) -> bool {
    i32::MIN <= v <= i32::MAX
}

/// `v`, or 0 when it is negative: the number of bytes a read of `v` bytes takes.
pub open spec fn count_of(v: int) -> int {
    if v > 0 {
        v
    } else {
        0
    }
}

/// Whether byte `b` lies in `lo..=hi`.
pub open spec fn byte_in(b: u8, lo: u8, hi: u8) -> bool {
    lo <= b <= hi
}

/// Length of the well-formed UTF-8 character that starts at `p` and ends by
/// `end`, or 0 when none does (the table of well-formed byte sequences of
/// the Unicode standard).
pub open spec fn utf8_char_len(s: Seq<u8>, p: int, end: int) -> int {
    let b0 = s[p];
    let has = |n: int| p + n <= end;
    if b0 < 0x80 {
        1
    } else if byte_in(b0, 0xC2, 0xDF) {
        if has(2) && byte_in(s[p + 1], 0x80, 0xBF) {
            2
        } else {
            0
        }
    } else if byte_in(b0, 0xE0, 0xEF) {
        let (lo, hi) = if b0 == 0xE0 {
            (0xA0u8, 0xBFu8)
        } else if b0 == 0xED {
            (0x80u8, 0x9Fu8)
        } else {
            (0x80u8, 0xBFu8)
        };
        if has(3) && byte_in(s[p + 1], lo, hi) && byte_in(s[p + 2], 0x80, 0xBF) {
            3
        } else {
            0
        }
    } else if byte_in(b0, 0xF0, 0xF4) {
        let (lo, hi) = if b0 == 0xF0 {
            (0x90u8, 0xBFu8)
        } else if b0 == 0xF4 {
            (0x80u8, 0x8Fu8)
        } else {
            (0x80u8, 0xBFu8)
        };
        if has(4) && byte_in(s[p + 1], lo, hi) && byte_in(s[p + 2], 0x80, 0xBF) && byte_in(
            s[p + 3],
            0x80,
            0xBF,
        ) {
            4
        } else {
            0
        }
    } else {
        0
    }
}

/// Whether the bytes from `p` to `end` are UTF-8.
pub open spec fn utf8_valid(s: Seq<u8>, p: int, end: int) -> bool
    decreases end - p,
{
    if p >= end {
        true
    } else {
        let n = utf8_char_len(s, p, end);
        if n <= 0 {
            false
        } else {
            utf8_valid(s, p + n, end)
        }
    }
}

/// A dictionary entry: where its key starts, the key's length, where its
/// value starts and the value's length.
pub type DictEntry = (int, int, int, int);

/// Reads dictionary entries from `q` on, `read` bytes being counted so far:
/// the position after the dictionary and its entries, or `None` where the
/// reader panics. An entry counts its key size plus its value size plus 8.
pub open spec fn dict_from(s: Seq<u8>, q: int, max: int, read: int, entries: Seq<DictEntry>) -> Option<
    (int, Seq<DictEntry>),
>
    decreases s.len() - q,
{
    if q < 0 || q + 4 > s.len() {
        None
    } else {
        let k = le_i32(s, q);
        if k <= 0 {
            Some((q + 4, entries))
        } else if q + 4 + k + 4 > s.len() {
            None
        } else {
            let v = le_i32(s, q + 4 + k);
            let start = q + 8 + k;
            let next = start + count_of(v);
            let total = read + (k + v + 8);
            if next > s.len() || !fits_i32(k + v) || !fits_i32(k + v + 8) || !fits_i32(total) {
                None
            } else {
                let more = entries.push((q + 4, k, start, count_of(v)));
                if total >= max {
                    Some((next, more))
                } else {
                    dict_from(s, next, max, total, more)
                }
            }
        }
    }
}

/// Reads a dictionary of `max` bytes at `q`; one of 0 bytes is empty and
/// reads nothing.
pub open spec fn read_dict(s: Seq<u8>, q: int, max: int) -> Option<(int, Seq<DictEntry>)> {
    if max == 0 {
        Some((q, Seq::empty()))
    } else {
        dict_from(s, q, max, 0, Seq::empty())
    }
}

/// Where the value of `key` lies and its length: that of the last entry
/// with this key, the empty value at 0 when none has it.
pub open spec fn dict_value(s: Seq<u8>, entries: Seq<DictEntry>, key: Seq<u8>) -> (int, int)
    decreases entries.len(),
{
    if entries.len() == 0 {
        (0, 0)
    } else {
        let e = entries.last();
        if s.subrange(e.0, e.0 + e.1) == key {
            (e.2, e.3)
        } else {
            dict_value(s, entries.drop_last(), key)
        }
    }
}

/// The key `box` (a layer's or image's bounding box).
pub open spec fn key_box() -> Seq<u8> {
    seq![98u8, 111, 120]
}

/// The key `base_id`.
pub open spec fn key_base_id() -> Seq<u8> {
    seq![98u8, 97, 115, 101, 95, 105, 100]
}

/// The key `id`.
pub open spec fn key_id() -> Seq<u8> {
    seq![105u8, 100]
}

/// The key `img-path`.
pub open spec fn key_img_path() -> Seq<u8> {
    seq![105u8, 109, 103, 45, 112, 97, 116, 104]
}

/// The key `name`.
pub open spec fn key_name() -> Seq<u8> {
    seq![110u8, 97, 109, 101]
}

/// The key `shape`.
pub open spec fn key_shape() -> Seq<u8> {
    seq![115u8, 104, 97, 112, 101]
}

/// Whether the value of `key` can be read as an integer: empty, or at least 4 bytes.
pub open spec fn int_value_ok(s: Seq<u8>, entries: Seq<DictEntry>, key: Seq<u8>) -> bool {
    let (_, n) = dict_value(s, entries, key);
    n == 0 || n >= 4
}

/// Whether the value of `key` can be read as a string: UTF-8.
pub open spec fn string_value_ok(s: Seq<u8>, entries: Seq<DictEntry>, key: Seq<u8>) -> bool {
    let (p, n) = dict_value(s, entries, key);
    utf8_valid(s, p, p + n)
}

/// Whether the `box` value can be read as a box: empty, or at least 16
/// bytes (four floats are read from it).
pub open spec fn box_value_ok(s: Seq<u8>, entries: Seq<DictEntry>) -> bool {
    let (_, n) = dict_value(s, entries, key_box());
    n == 0 || n >= 16
}

/// The chunk type `BL16`: a block of 16 x 16 x 16 colors stored as a PNG image.
pub open spec fn tag_block() -> Seq<u8> {
    seq![66u8, 76, 49, 54]
}

/// The chunk type `CAMR`: a camera.
pub open spec fn tag_camera() -> Seq<u8> {
    seq![67u8, 65, 77, 82]
}

/// The chunk type `IMG `: the image's dictionary.
pub open spec fn tag_image() -> Seq<u8> {
    seq![73u8, 77, 71, 32]
}

/// The chunk type `LAYR`: a layer.
pub open spec fn tag_layer() -> Seq<u8> {
    seq![76u8, 65, 89, 82]
}

/// What the `png` crate reads from a block's image: `None` when it cannot
/// read the header, `Some(None)` when it cannot decode the frame, otherwise
/// the output color type's PNG code and the size of the decoded frame in bytes.
pub uninterp spec fn block_image_of(data: Seq<u8>) -> Option<Option<(u8, usize)>>;

/// Whether the block reader accepts what the `png` crate read: an unreadable
/// header leaves the block empty; a frame that does not decode panics; the
/// decoded frame is turned into RGBA colors (gray, gray and alpha, RGB or
/// RGBA), which must come in whole pixels and be at most 4096.
pub open spec fn block_image_ok(d: Option<Option<(u8, usize)>>) -> bool {
    match d {
        None => true,
        Some(None) => false,
        Some(Some((ct, n))) => if ct == 0 {
            n <= 4096
        } else if ct == 4 {
            n % 2 == 0 && n / 2 <= 4096
        } else if ct == 2 {
            n % 3 == 0 && n / 3 <= 4096
        } else if ct == 6 {
            n % 4 == 0 && n / 4 <= 4096
        } else {
            false
        },
    }
}

/// The position after the 4-byte CRC at `e`, `None` when it is cut short.
pub open spec fn after_crc(s: Seq<u8>, e: int) -> Option<int> {
    if e + 4 <= s.len() {
        Some(e + 4)
    } else {
        None
    }
}

/// Where a layer chunk whose data starts at `q` (with its length `len`
/// read) ends, before its CRC: its block count `c`, `c * 20 + 4` computed in
/// `i32`, `c` placements of 20 bytes, and a dictionary of the rest of the
/// length when that is positive, whose integer, string and box values must
/// be readable.
pub open spec fn layer_end(s: Seq<u8>, q: int, len: int) -> Option<int> {
    if q + 4 > s.len() {
        None
    } else {
        let c = le_i32(s, q);
        let blocks_len = c * 20 + 4;
        let after = q + 4 + 20 * count_of(c);
        if !fits_i32(c * 20) || !fits_i32(blocks_len) || after > s.len() {
            None
        } else if blocks_len < len && !fits_i32(len - blocks_len) {
            None
        } else {
            let dict = if blocks_len < len {
                read_dict(s, after, len - blocks_len)
            } else {
                Some((after, Seq::empty()))
            };
            match dict {
                None => None,
                Some((e, entries)) => {
                    if int_value_ok(s, entries, key_base_id()) && int_value_ok(s, entries, key_id())
                        && int_value_ok(s, entries, key_shape()) && string_value_ok(
                        s,
                        entries,
                        key_img_path(),
                    ) && string_value_ok(s, entries, key_name()) && box_value_ok(s, entries) {
                        Some(e)
                    } else {
                        None
                    }
                },
            }
        }
    }
}

/// Where the chunk whose UTF-8 type bytes start at `p` ends, CRC included,
/// or `None` where reading it panics. After the type comes a length `len`;
/// then a block reads `len` bytes of PNG image, a camera a dictionary of
/// `len` bytes, an image a dictionary of `len` bytes that must hold a box of
/// at least 16 bytes, a layer its placements and dictionary, and any other
/// chunk `len` bytes.
pub open spec fn chunk_end(s: Seq<u8>, p: int) -> Option<int> {
    let t = s.subrange(p, p + 4);
    let q = p + 8;
    if q > s.len() {
        None
    } else {
        let len = le_i32(s, p + 4);
        if t == tag_block() {
            let d = q + count_of(len);
            if d > s.len() || !block_image_ok(block_image_of(s.subrange(q, d))) {
                None
            } else {
                after_crc(s, d)
            }
        } else if t == tag_camera() {
            match read_dict(s, q, len) {
                None => None,
                Some((e, _)) => after_crc(s, e),
            }
        } else if t == tag_image() {
            match read_dict(s, q, len) {
                None => None,
                Some((e, entries)) => if dict_value(s, entries, key_box()).1 >= 16 {
                    after_crc(s, e)
                } else {
                    None
                },
            }
        } else if t == tag_layer() {
            match layer_end(s, q, len) {
                None => None,
                Some(e) => after_crc(s, e),
            }
        } else {
            let d = q + count_of(len);
            if d > s.len() {
                None
            } else {
                after_crc(s, d)
            }
        }
    }
}

/// Whether the chunks from `p` on are read without panicking (a chunk that
/// is read always ends after its type bytes, so `e > p` holds there).
pub open spec fn chunks_ok(s: Seq<u8>, p: int) -> bool
    decreases s.len() - p,
{
    if p < 0 || p >= s.len() {
        true
    } else if p + 4 > s.len() {
        false
    } else if s[p] == 0 && s[p + 1] == 0 && s[p + 2] == 0 && s[p + 3] == 0 {
        true
    } else if !utf8_valid(s, p, p + 4) {
        chunks_ok(s, p + 4)
    } else {
        match chunk_end(s, p) {
            None => false,
            Some(e) => if e > p {
                chunks_ok(s, e)
            } else {
                false
            },
        }
    }
}

/// Whether the `gox` crate reads the file to the end without panicking: a
/// magic and a version of four bytes each, then the chunks.
pub open spec fn gox_file_ok(s: Seq<u8>) -> bool {
    s.len() >= 8 && chunks_ok(s, 8)
}

/// Decodes a block's PNG image with the `png` crate, through the reader that
/// the `gox` crate's block reader uses (`gox::Memory`) and with the same
/// calls: `read_info`, then `next_frame` into a buffer of the frame's size.
/// Trusted: the result is `block_image_of` of the bytes, which names what
/// these calls give; nothing more is claimed of the decoder.
#[verifier::external_body]
fn decode_block_image(data: Vec<u8>) -> (r: Option<Option<(u8, usize)>>)
    ensures
        r == block_image_of(data@),
{
    match png::Decoder::new(gox::Memory { buffer: data }).read_info() {
        Err(_) => None,
        Ok((info, mut reader)) => {
            let mut buf = vec![0u8; info.buffer_size()];
            match reader.next_frame(&mut buf) {
                Err(_) => Some(None),
                Ok(()) => Some(Some((info.color_type as u8, buf.len()))),
            }
        },
    }
}

/// The `i32` stored little-endian at `p`.
fn read_i32(s: &Vec<u8>, p: usize) -> (r: i32)
    requires
        p + 4 <= s@.len(),
    ensures
        r == le_i32(s@, p as int),
{
    assert(s@.len() == s.len());
    let u: u64 = s[p] as u64 + 256 * s[p + 1] as u64 + 65536 * s[p + 2] as u64 + 16777216
        * s[p + 3] as u64;
    if u < 0x8000_0000 {
        u as i32
    } else {
        (u as i64 - 0x1_0000_0000i64) as i32
    }
}

/// Length of the UTF-8 character at `p`, 0 when none starts there.
fn char_len(s: &Vec<u8>, p: usize, end: usize) -> (r: usize)
    requires
        p < end <= s@.len(),
    ensures
        r == utf8_char_len(s@, p as int, end as int),
{
    let b0 = s[p];
    if b0 < 0x80 {
        1
    } else if 0xC2 <= b0 && b0 <= 0xDF {
        if end - p >= 2 && 0x80 <= s[p + 1] && s[p + 1] <= 0xBF {
            2
        } else {
            0
        }
    } else if 0xE0 <= b0 && b0 <= 0xEF {
        let (lo, hi): (u8, u8) = if b0 == 0xE0 {
            (0xA0, 0xBF)
        } else if b0 == 0xED {
            (0x80, 0x9F)
        } else {
            (0x80, 0xBF)
        };
        if end - p >= 3 && lo <= s[p + 1] && s[p + 1] <= hi && 0x80 <= s[p + 2] && s[p + 2]
            <= 0xBF {
            3
        } else {
            0
        }
    } else if 0xF0 <= b0 && b0 <= 0xF4 {
        let (lo, hi): (u8, u8) = if b0 == 0xF0 {
            (0x90, 0xBF)
        } else if b0 == 0xF4 {
            (0x80, 0x8F)
        } else {
            (0x80, 0xBF)
        };
        if end - p >= 4 && lo <= s[p + 1] && s[p + 1] <= hi && 0x80 <= s[p + 2] && s[p + 2]
            <= 0xBF && 0x80 <= s[p + 3] && s[p + 3] <= 0xBF {
            4
        } else {
            0
        }
    } else {
        0
    }
}

/// Whether the bytes from `p` to `end` are UTF-8.
fn is_utf8(s: &Vec<u8>, p: usize, end: usize) -> (r: bool)
    requires
        p <= end <= s@.len(),
    ensures
        r == utf8_valid(s@, p as int, end as int),
{
    let mut i = p;
    while i < end
        invariant
            p <= i <= end <= s@.len(),
            utf8_valid(s@, p as int, end as int) == utf8_valid(s@, i as int, end as int),
        decreases end - i,
    {
        let n = char_len(s, i, end);
        if n == 0 {
            return false;
        }
        i = i + n;
    }
    true
}

/// The entries of a dictionary read by [`scan_dict`], as positions.
pub open spec fn entry_positions(v: Seq<(usize, usize, usize, usize)>) -> Seq<DictEntry> {
    v.map_values(|e: (usize, usize, usize, usize)| (e.0 as int, e.1 as int, e.2 as int, e.3 as int))
}

/// Every entry's key and value lie inside `s`.
pub open spec fn entries_inside(s: Seq<u8>, v: Seq<DictEntry>) -> bool {
    forall|i: int|
        0 <= i < v.len() ==> {
            &&& 0 <= #[trigger] v[i].0
            &&& 0 <= v[i].1
            &&& v[i].0 + v[i].1 <= s.len()
            &&& 0 <= v[i].2
            &&& 0 <= v[i].3
            &&& v[i].2 + v[i].3 <= s.len()
        }
}

/// Reads the dictionary of `max` bytes at `q`, as the `gox` crate does: the
/// position after it and its entries, `None` where the reader panics.
fn scan_dict(s: &Vec<u8>, q: usize, max: i32) -> (r: Option<(usize, Vec<(usize, usize, usize, usize)>)>)
    requires
        q <= s@.len(),
    ensures
        match r {
            None => read_dict(s@, q as int, max as int) is None,
            Some((e, v)) => {
                &&& read_dict(s@, q as int, max as int) == Some((e as int, entry_positions(v@)))
                &&& entries_inside(s@, entry_positions(v@))
                &&& e <= s@.len()
            },
        },
{
    let mut entries: Vec<(usize, usize, usize, usize)> = Vec::new();
    assert(entry_positions(entries@) =~= Seq::<DictEntry>::empty());
    if max == 0 {
        return Some((q, entries));
    }
    let mut pos = q;
    let mut read: i32 = 0;
    loop
        invariant
            pos <= s@.len(),
            max != 0,
            read_dict(s@, q as int, max as int) == dict_from(
                s@,
                pos as int,
                max as int,
                read as int,
                entry_positions(entries@),
            ),
            entries_inside(s@, entry_positions(entries@)),
        decreases s@.len() - pos,
    {
        if s.len() - pos < 4 {
            return None;
        }
        let k = read_i32(s, pos);
        if k <= 0 {
            return Some((pos + 4, entries));
        }
        if s.len() - pos < 8 || k as usize > s.len() - pos - 8 {
            return None;
        }
        let v = read_i32(s, pos + 4 + k as usize);
        let start = pos + 8 + k as usize;
        let count: usize = if v > 0 {
            v as usize
        } else {
            0
        };
        if count > s.len() - start {
            return None;
        }
        let next = start + count;
        let kv: i64 = k as i64 + v as i64;
        if kv > i32::MAX as i64 || kv + 8 > i32::MAX as i64 || read as i64 + (kv + 8) > i32::MAX as i64
            || read as i64 + (kv + 8) < i32::MIN as i64 {
            return None;
        }
        let total: i32 = (read as i64 + (kv + 8)) as i32;
        let ghost before = entries@;
        entries.push((pos + 4, k as usize, start, count));
        assert(entry_positions(entries@) =~= entry_positions(before).push(
            ((pos + 4) as int, k as int, start as int, count as int),
        ));
        if total >= max {
            return Some((next, entries));
        }
        pos = next;
        read = total;
    }
}

/// Whether the `len` bytes at `start` are `key`.
fn key_is(s: &Vec<u8>, start: usize, len: usize, key: &Vec<u8>) -> (r: bool)
    requires
        start + len <= s@.len(),
    ensures
        r == (s@.subrange(start as int, start + len) == key@),
{
    if len != key.len() {
        assert(s@.subrange(start as int, start + len).len() != key@.len());
        return false;
    }
    let n = s.len();
    let mut i: usize = 0;
    while i < len
        invariant
            i <= len == key@.len(),
            n == s@.len(),
            start + len <= s@.len(),
            forall|j: int| 0 <= j < i ==> s@[start + j] == key@[j],
        decreases len - i,
    {
        if s[start + i] != key[i] {
            assert(s@.subrange(start as int, start + len)[i as int] != key@[i as int]);
            return false;
        }
        i += 1;
    }
    assert(s@.subrange(start as int, start + len) =~= key@);
    true
}

/// Where the value of `key` lies and its length (see [`dict_value`]).
fn lookup(s: &Vec<u8>, entries: &Vec<(usize, usize, usize, usize)>, key: &Vec<u8>) -> (r: (
    usize,
    usize,
))
    requires
        entries_inside(s@, entry_positions(entries@)),
    ensures
        (r.0 as int, r.1 as int) == dict_value(s@, entry_positions(entries@), key@),
        r.0 + r.1 <= s@.len(),
{
    let ghost all = entry_positions(entries@);
    let mut i = entries.len();
    assert(all.take(i as int) =~= all);
    while i > 0
        invariant
            i <= entries@.len(),
            all == entry_positions(entries@),
            entries_inside(s@, all),
            dict_value(s@, all, key@) == dict_value(s@, all.take(i as int), key@),
        decreases i,
    {
        let e = entries[i - 1];
        assert(all[i - 1] == (e.0 as int, e.1 as int, e.2 as int, e.3 as int));
        assert(all.take(i as int).last() == all[i - 1]);
        if key_is(s, e.0, e.1, key) {
            return (e.2, e.3);
        }
        assert(all.take(i as int).drop_last() =~= all.take(i - 1));
        i -= 1;
    }
    (0, 0)
}

/// Whether a layer's dictionary values can be read (see [`layer_end`]).
fn layer_values_ok(s: &Vec<u8>, entries: &Vec<(usize, usize, usize, usize)>) -> (r: bool)
    requires
        entries_inside(s@, entry_positions(entries@)),
    ensures
        r == {
            let v = entry_positions(entries@);
            int_value_ok(s@, v, key_base_id()) && int_value_ok(s@, v, key_id()) && int_value_ok(
                s@,
                v,
                key_shape(),
            ) && string_value_ok(s@, v, key_img_path()) && string_value_ok(s@, v, key_name())
                && box_value_ok(s@, v)
        },
{
    let base_id: Vec<u8> = vec![98, 97, 115, 101, 95, 105, 100];
    let id: Vec<u8> = vec![105, 100];
    let shape: Vec<u8> = vec![115, 104, 97, 112, 101];
    let img_path: Vec<u8> = vec![105, 109, 103, 45, 112, 97, 116, 104];
    let name: Vec<u8> = vec![110, 97, 109, 101];
    let bx: Vec<u8> = vec![98, 111, 120];
    assert(base_id@ =~= key_base_id());
    assert(id@ =~= key_id());
    assert(shape@ =~= key_shape());
    assert(img_path@ =~= key_img_path());
    assert(name@ =~= key_name());
    assert(bx@ =~= key_box());
    let (_, n) = lookup(s, entries, &base_id);
    if n != 0 && n < 4 {
        return false;
    }
    let (_, n) = lookup(s, entries, &id);
    if n != 0 && n < 4 {
        return false;
    }
    let (_, n) = lookup(s, entries, &shape);
    if n != 0 && n < 4 {
        return false;
    }
    assert(s@.len() == s.len());
    let (p, n) = lookup(s, entries, &img_path);
    if !is_utf8(s, p, p + n) {
        return false;
    }
    let (p, n) = lookup(s, entries, &name);
    if !is_utf8(s, p, p + n) {
        return false;
    }
    let (_, n) = lookup(s, entries, &bx);
    n == 0 || n >= 16
}

/// Reads a layer chunk's data at `q` (see [`layer_end`]).
fn scan_layer(s: &Vec<u8>, q: usize, len: i32) -> (r: Option<usize>)
    requires
        q <= s@.len(),
    ensures
        match r {
            None => layer_end(s@, q as int, len as int) is None,
            Some(e) => layer_end(s@, q as int, len as int) == Some(e as int) && e <= s@.len(),
        },
{
    if s.len() - q < 4 {
        return None;
    }
    let c = read_i32(s, q);
    let c20: i64 = c as i64 * 20;
    if c20 > i32::MAX as i64 || c20 < i32::MIN as i64 || c20 + 4 > i32::MAX as i64 {
        return None;
    }
    let blocks_len: i64 = c20 + 4;
    let count: usize = if c > 0 {
        c as usize
    } else {
        0
    };
    let room = s.len() - q - 4;
    if count > room / 20 {
        assert(20 * count > room) by (nonlinear_arith)
            requires
                count > room / 20,
        ;
        return None;
    }
    assert(20 * count <= room) by (nonlinear_arith)
        requires
            count <= room / 20,
    ;
    let after = q + 4 + 20 * count;
    let dict = if blocks_len < len as i64 {
        let rest: i64 = len as i64 - blocks_len;
        if rest > i32::MAX as i64 {
            return None;
        }
        scan_dict(s, after, rest as i32)
    } else {
        let none: Vec<(usize, usize, usize, usize)> = Vec::new();
        assert(entry_positions(none@) =~= Seq::<DictEntry>::empty());
        Some((after, none))
    };
    match dict {
        None => None,
        Some((e, entries)) => {
            if layer_values_ok(s, &entries) {
                Some(e)
            } else {
                None
            }
        },
    }
}

/// Whether the four bytes at `p` are `a b c d`.
fn has_tag(s: &Vec<u8>, p: usize, a: u8, b: u8, c: u8, d: u8) -> (r: bool)
    requires
        p + 4 <= s@.len(),
    ensures
        r == (s@.subrange(p as int, p + 4) == seq![a, b, c, d]),
{
    let ghost t = s@.subrange(p as int, p + 4);
    assert(s@.len() == s.len());
    if s[p] == a && s[p + 1] == b && s[p + 2] == c && s[p + 3] == d {
        assert(t =~= seq![a, b, c, d]);
        true
    } else {
        assert(t[0] != a || t[1] != b || t[2] != c || t[3] != d);
        false
    }
}

/// Whether the block reader accepts what the `png` crate read (see [`block_image_ok`]).
fn image_ok(d: Option<Option<(u8, usize)>>) -> (r: bool)
    ensures
        r == block_image_ok(d),
{
    match d {
        None => true,
        Some(None) => false,
        Some(Some((ct, n))) => if ct == 0 {
            n <= 4096
        } else if ct == 4 {
            n % 2 == 0 && n / 2 <= 4096
        } else if ct == 2 {
            n % 3 == 0 && n / 3 <= 4096
        } else if ct == 6 {
            n % 4 == 0 && n / 4 <= 4096
        } else {
            false
        },
    }
}

/// The `n` bytes at `start`.
fn bytes_at(s: &Vec<u8>, start: usize, n: usize) -> (r: Vec<u8>)
    requires
        start + n <= s@.len(),
    ensures
        r@ == s@.subrange(start as int, start + n),
{
    let mut r: Vec<u8> = Vec::with_capacity(n);
    let total = s.len();
    let mut i: usize = 0;
    while i < n
        invariant
            i <= n,
            total == s@.len(),
            start + n <= s@.len(),
            r@ =~= s@.subrange(start as int, start + i),
        decreases n - i,
    {
        r.push(s[start + i]);
        i += 1;
    }
    r
}

/// The position after the CRC at `e` (see [`after_crc`]).
fn skip_crc(s: &Vec<u8>, e: usize) -> (r: Option<usize>)
    requires
        e <= s@.len(),
    ensures
        r == (match after_crc(s@, e as int) {
            None => None,
            Some(x) => Some(x as usize),
        }),
        r matches Some(x) ==> x <= s@.len(),
{
    if s.len() - e < 4 {
        None
    } else {
        Some(e + 4)
    }
}

/// Reads the chunk whose UTF-8 type bytes start at `p` (see [`chunk_end`]).
fn scan_chunk(s: &Vec<u8>, p: usize) -> (r: Option<usize>)
    requires
        p + 4 <= s@.len(),
    ensures
        match r {
            None => chunk_end(s@, p as int) is None,
            Some(e) => chunk_end(s@, p as int) == Some(e as int) && e <= s@.len(),
        },
{
    if s.len() - p < 8 {
        return None;
    }
    let q = p + 8;
    let len = read_i32(s, p + 4);
    let count: usize = if len > 0 {
        len as usize
    } else {
        0
    };
    if has_tag(s, p, 66, 76, 49, 54) {
        assert(seq![66u8, 76, 49, 54] =~= tag_block());
        if count > s.len() - q {
            return None;
        }
        let image = bytes_at(s, q, count);
        if !image_ok(decode_block_image(image)) {
            return None;
        }
        skip_crc(s, q + count)
    } else if has_tag(s, p, 67, 65, 77, 82) {
        assert(seq![66u8, 76, 49, 54] != seq![67u8, 65, 77, 82]) by {
            assert(seq![66u8, 76, 49, 54][0] != seq![67u8, 65, 77, 82][0]);
        }
        assert(seq![67u8, 65, 77, 82] =~= tag_camera());
        match scan_dict(s, q, len) {
            None => None,
            Some((e, _)) => skip_crc(s, e),
        }
    } else if has_tag(s, p, 73, 77, 71, 32) {
        assert(seq![73u8, 77, 71, 32] =~= tag_image());
        assert(tag_image()[0] != tag_block()[0] && tag_image()[0] != tag_camera()[0]);
        match scan_dict(s, q, len) {
            None => None,
            Some((e, entries)) => {
                let bx: Vec<u8> = vec![98, 111, 120];
                assert(bx@ =~= key_box());
                let (_, n) = lookup(s, &entries, &bx);
                if n >= 16 {
                    skip_crc(s, e)
                } else {
                    None
                }
            },
        }
    } else if has_tag(s, p, 76, 65, 89, 82) {
        assert(seq![76u8, 65, 89, 82] =~= tag_layer());
        assert(tag_layer()[0] != tag_block()[0] && tag_layer()[0] != tag_camera()[0]
            && tag_layer()[0] != tag_image()[0]);
        match scan_layer(s, q, len) {
            None => None,
            Some(e) => skip_crc(s, e),
        }
    } else {
        assert(seq![66u8, 76, 49, 54] =~= tag_block());
        assert(seq![67u8, 65, 77, 82] =~= tag_camera());
        assert(seq![73u8, 77, 71, 32] =~= tag_image());
        assert(seq![76u8, 65, 89, 82] =~= tag_layer());
        if count > s.len() - q {
            return None;
        }
        skip_crc(s, q + count)
    }
}

/// Whether the `gox` crate reads these bytes to the end without panicking
/// (see [`gox_file_ok`]).
pub fn check_gox_file(bytes: &Vec<u8>) -> (r: bool)
    ensures
        r == gox_file_ok(bytes@),
{
    let n = bytes.len();
    if n < 8 {
        return false;
    }
    let mut p: usize = 8;
    loop
        invariant
            8 <= p <= n,
            n == bytes@.len(),
            gox_file_ok(bytes@) == chunks_ok(bytes@, p as int),
        decreases n - p,
    {
        if p == n {
            return true;
        }
        if n - p < 4 {
            return false;
        }
        if bytes[p] == 0 && bytes[p + 1] == 0 && bytes[p + 2] == 0 && bytes[p + 3] == 0 {
            return true;
        }
        if !is_utf8(bytes, p, p + 4) {
            p = p + 4;
        } else {
            match scan_chunk(bytes, p) {
                None => {
                    return false;
                },
                Some(e) => {
                    if e <= p {
                        return false;
                    }
                    p = e;
                },
            }
        }
    }
}

} // verus!
