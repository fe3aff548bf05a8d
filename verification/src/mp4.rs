//! Durations in the header of an MP4 stream.
//!
//! An encoder that writes to a pipe does not know how long the stream will be, so
//! the `moov` box at its start carries no durations. They are known from the probe,
//! and every field that holds one has a fixed width: they are filled in place.

use crate::hls::producer;
use crate::numbers;
use vstd::prelude::*;

verus! {

pub const MOOV: u32 = 0x6d6f_6f76;

pub const TRAK: u32 = 0x7472_616b;

pub const MDIA: u32 = 0x6d64_6961;

pub const MVEX: u32 = 0x6d76_6578;

pub const EDTS: u32 = 0x6564_7473;

pub const MINF: u32 = 0x6d69_6e66;

pub const STBL: u32 = 0x7374_626c;

pub const MVHD: u32 = 0x6d76_6864;

pub const TKHD: u32 = 0x746b_6864;

pub const MDHD: u32 = 0x6d64_6864;

pub const MEHD: u32 = 0x6d65_6864;

/// The time scale of a movie header that is missing or unreadable.
pub const DEFAULT_TIMESCALE: u32 = 1000;

// ---- boxes ----

/// A big-endian 64-bit number at `i`.
pub open spec fn be64(b: Seq<u8>, i: int) -> int {
    producer::be32(b, i) * 0x1_0000_0000 + producer::be32(b, i + 4)
}

fn read_be64(b: &Vec<u8>, i: usize) -> (r: u64)
    requires
        i + 8 <= b@.len(),
    ensures
        r == be64(b@, i as int),
{
    let total: usize = b.len();
    assert(i + 8 <= total);
    let hi: u64 = producer::read_be32(b, i) as u64;
    let lo: u64 = producer::read_be32(b, i + 4) as u64;
    hi * 0x1_0000_0000 + lo
}

/// The length of the header of the box at `p`.
pub open spec fn header_len(b: Seq<u8>, p: int) -> int {
    if producer::be32(b, p) == 1 {
        16
    } else {
        8
    }
}

/// The type of the box at `p`.
pub open spec fn box_name(b: Seq<u8>, p: int) -> int {
    producer::be32(b, p + 4)
}

/// The end of the box at `p` among the boxes that end at `end`: it is given by its
/// 32-bit or its 64-bit size, or, where that is zero, it is `end`. `None` where no whole
/// box stands there.
pub open spec fn box_end(b: Seq<u8>, p: int, end: int) -> Option<int> {
    if p + 8 > end || p + header_len(b, p) > end {
        None
    } else {
        let size = producer::be32(b, p);
        let len = if size == 1 {
            be64(b, p + 8)
        } else if size == 0 {
            end - p
        } else {
            size
        };
        if len < header_len(b, p) || p + len > end {
            None
        } else {
            Some(p + len)
        }
    }
}

fn end_of_box(b: &Vec<u8>, p: usize, end: usize) -> (r: Option<usize>)
    requires
        p <= end <= b@.len(),
    ensures
        match r {
            Some(e) => box_end(b@, p as int, end as int) == Some(e as int) && p + header_len(
                b@,
                p as int,
            ) <= e <= end,
            None => box_end(b@, p as int, end as int) is None,
        },
{
    if end - p < 8 {
        return None;
    }
    let size: u32 = producer::read_be32(b, p);
    let mut header: usize = 8;
    let mut len: u64 = size as u64;
    if size == 1 {
        header = 16;
        if end - p < 16 {
            return None;
        }
        len = read_be64(b, p + 8);
    } else if size == 0 {
        len = (end - p) as u64;
    }
    if len < header as u64 || len > (end - p) as u64 {
        return None;
    }
    Some(p + len as usize)
}

/// The first whole top-level box of type `name` from `p` on, as its start and its end.
/// A box that runs to the end of the file ends the search.
pub open spec fn top_level(b: Seq<u8>, p: int, name: int) -> Option<(int, int)>
    decreases b.len() - p,
{
    if p < 0 || p + 8 > b.len() || producer::be32(b, p) == 0 {
        None
    } else {
        match box_end(b, p, b.len() as int) {
            Some(e) => if box_name(b, p) == name {
                Some((p, e))
            } else if p < e {
                top_level(b, e, name)
            } else {
                None
            },
            None => None,
        }
    }
}

/// Finds the first top-level box of type `name`, if the bytes hold all of it.
pub fn find_top_level_box(b: &Vec<u8>, name: u32) -> (r: Option<(usize, usize)>)
    ensures
        match r {
            Some(x) => top_level(b@, 0, name as int) == Some((x.0 as int, x.1 as int)) && x.0 + 8
                <= x.1 <= b@.len(),
            None => top_level(b@, 0, name as int) is None,
        },
{
    let total: usize = b.len();
    let mut p: usize = 0;
    while total - p >= 8
        invariant
            p <= total == b@.len(),
            top_level(b@, 0, name as int) == top_level(b@, p as int, name as int),
        decreases total - p,
    {
        if producer::read_be32(b, p) == 0 {
            return None;
        }
        match end_of_box(b, p, total) {
            Some(e) => {
                if producer::read_be32(b, p + 4) == name {
                    return Some((p, e));
                }
                p = e;
            },
            None => {
                return None;
            },
        }
    }
    None
}

/// A box that holds boxes, on the way to those with durations.
pub open spec fn is_container(name: int) -> bool {
    name == MOOV || name == TRAK || name == MDIA || name == MVEX || name == EDTS || name == MINF
        || name == STBL
}

fn container(name: u32) -> (r: bool)
    ensures
        r == is_container(name as int),
{
    name == MOOV || name == TRAK || name == MDIA || name == MVEX || name == EDTS || name == MINF
        || name == STBL
}

/// A box that holds no boxes: its type, and where its payload starts and ends.
#[derive(Debug, Clone, Copy, PartialEq, Eq, Structural)]
pub struct Leaf {
    pub name: u32,
    pub from: usize,
    pub to: usize,
}

/// The leaves among the boxes in `b[p..end]`, in order. A malformed box ends the walk.
pub open spec fn leaves(b: Seq<u8>, p: int, end: int) -> Seq<Leaf>
    decreases end - p,
{
    match box_end(b, p, end) {
        Some(e) => {
            let from = p + header_len(b, p);
            if p < from <= e <= end {
                let here = if is_container(box_name(b, p)) {
                    leaves(b, from, e)
                } else {
                    seq![Leaf { name: box_name(b, p) as u32, from: from as usize, to: e as usize }]
                };
                here + leaves(b, e, end)
            } else {
                Seq::empty()
            }
        },
        None => Seq::empty(),
    }
}

/// Appends the leaves among the boxes in `b[start..end]`.
pub fn collect_leaf_boxes(b: &Vec<u8>, start: usize, end: usize, out: &mut Vec<Leaf>)
    requires
        start <= end <= b@.len(),
    ensures
        final(out)@ == old(out)@ + leaves(b@, start as int, end as int),
    decreases end - start,
{
    let ghost want = old(out)@ + leaves(b@, start as int, end as int);
    let mut p: usize = start;
    loop
        invariant
            start <= p <= end <= b@.len(),
            out@ + leaves(b@, p as int, end as int) =~= want,
            want == old(out)@ + leaves(b@, start as int, end as int),
        decreases end - p,
    {
        match end_of_box(b, p, end) {
            None => {
                assert(leaves(b@, p as int, end as int) =~= Seq::<Leaf>::empty());
                assert(out@ =~= want);
                return;
            },
            Some(e) => {
                let size: u32 = producer::read_be32(b, p);
                let from: usize = if size == 1 { p + 16 } else { p + 8 };
                let name: u32 = producer::read_be32(b, p + 4);
                let ghost before = out@;
                if container(name) {
                    collect_leaf_boxes(b, from, e, out);
                    assert(out@ == before + leaves(b@, from as int, e as int));
                } else {
                    out.push(Leaf { name, from, to: e });
                    assert(out@ =~= before + seq![Leaf { name, from, to: e }]);
                }
                p = e;
            },
        }
    }
}

// ---- fields ----

#[derive(Debug, Clone, Copy, PartialEq, Eq, Structural)]
pub enum FullboxKind {
    Mvhd,
    Tkhd,
    Mdhd,
    Mehd,
}

/// Where the time scale stands in a payload, behind the four bytes of version and
/// flags. Creation and modification time come first, with 32 bits each in version 0
/// and 64 later.
pub open spec fn timescale_offset(kind: FullboxKind, version: u8) -> Option<int> {
    match kind {
        FullboxKind::Mvhd => Some(
            if version == 0 {
                4int + 4
            } else {
                8int + 8
            },
        ),
        FullboxKind::Mdhd => Some(
            if version == 0 {
                4int + 4
            } else {
                8int + 8
            },
        ),
        FullboxKind::Tkhd => None,
        FullboxKind::Mehd => None,
    }
}

/// Where the duration stands, likewise: behind the time scale, or behind the track's
/// number and a reserved word, or first.
pub open spec fn duration_offset(kind: FullboxKind, version: u8) -> int {
    match kind {
        FullboxKind::Mvhd => if version == 0 {
            4int + 4 + 4
        } else {
            8int + 8 + 4
        },
        FullboxKind::Mdhd => if version == 0 {
            4int + 4 + 4
        } else {
            8int + 8 + 4
        },
        FullboxKind::Tkhd => if version == 0 {
            4int + 4 + 4 + 4
        } else {
            8int + 8 + 4 + 4
        },
        FullboxKind::Mehd => 0,
    }
}

/// The bytes of a duration.
pub open spec fn duration_width(version: u8) -> int {
    if version == 0 {
        4
    } else {
        8
    }
}

/// The offset of the time scale, if there is one, the offset of the duration, and
/// whether the duration has 64 bits.
pub fn fullbox_layout(kind: FullboxKind, version: u8) -> (r: (Option<usize>, usize, bool))
    ensures
        match r.0 {
            Some(t) => timescale_offset(kind, version) == Some(t as int) && t <= 16,
            None => timescale_offset(kind, version) is None,
        },
        r.1 == duration_offset(kind, version),
        r.1 <= 24,
        r.2 == (version != 0),
{
    match kind {
        FullboxKind::Mvhd => if version == 0 {
            (Some(8), 12, false)
        } else {
            (Some(16), 20, true)
        },
        FullboxKind::Tkhd => if version == 0 {
            (None, 16, false)
        } else {
            (None, 24, true)
        },
        FullboxKind::Mdhd => if version == 0 {
            (Some(8), 12, false)
        } else {
            (Some(16), 20, true)
        },
        FullboxKind::Mehd => (None, 0, version != 0),
    }
}

/// The time scale in the payload `b[from..to]`, if it holds one.
pub open spec fn timescale_in(b: Seq<u8>, from: int, to: int, kind: FullboxKind) -> Option<int> {
    if to - from < 4 {
        None
    } else {
        match timescale_offset(kind, b[from]) {
            Some(t) => if from + 4 + t + 4 <= to {
                Some(producer::be32(b, from + 4 + t))
            } else {
                None
            },
            None => None,
        }
    }
}

/// How many units a second has, as a header box says it.
pub fn read_fullbox_timescale(b: &Vec<u8>, from: usize, to: usize, kind: FullboxKind) -> (r: Option<u32>)
    requires
        from <= to <= b@.len(),
    ensures
        match r {
            Some(t) => timescale_in(b@, from as int, to as int, kind) == Some(t as int),
            None => timescale_in(b@, from as int, to as int, kind) is None,
        },
{
    if to - from < 4 {
        return None;
    }
    let (ts, _, _) = fullbox_layout(kind, b[from]);
    match ts {
        Some(t) => {
            if to - from >= 8 + t {
                Some(producer::read_be32(b, from + 4 + t))
            } else {
                None
            }
        },
        None => None,
    }
}

/// Byte `k` of the big-endian form of `n` over `width` bytes.
pub open spec fn be_byte(n: int, width: int, k: int) -> u8 {
    (n / pow256(width - 1 - k) % 256) as u8
}

/// 256 to the power `n`.
pub open spec fn pow256(n: int) -> int
    decreases n,
{
    if n <= 0 {
        1
    } else {
        256 * pow256(n - 1)
    }
}

/// `b` with the bytes from `at` on replaced by the big-endian form of `n`.
pub open spec fn with_number(b: Seq<u8>, at: int, n: int, width: int) -> Seq<u8> {
    Seq::new(
        b.len(),
        |i: int|
            if at <= i < at + width {
                be_byte(n, width, i - at)
            } else {
                b[i]
            },
    )
}

/// A duration as a field of the given width holds it: the greatest number where it
/// does not fit.
pub open spec fn fitted(duration: int, width: int) -> int {
    if width == 4 && duration > u32::MAX {
        u32::MAX as int
    } else {
        duration
    }
}

/// `b` with the duration in the payload `b[from..to]` replaced; unchanged where the
/// payload is too short to hold one.
pub open spec fn with_duration(
    b: Seq<u8>,
    from: int,
    to: int,
    kind: FullboxKind,
    duration: int,
) -> Seq<u8> {
    if to - from < 4 {
        b
    } else {
        let width = duration_width(b[from]);
        let at = from + 4 + duration_offset(kind, b[from]);
        if at + width <= to {
            with_number(b, at, fitted(duration, width), width)
        } else {
            b
        }
    }
}

fn write_number(b: &mut Vec<u8>, at: usize, n: u64, width: usize)
    requires
        width == 4 || width == 8,
        width == 4 ==> n <= u32::MAX,
        at + width <= old(b)@.len(),
    ensures
        final(b)@ == with_number(old(b)@, at as int, n as int, width as int),
{
    let total: usize = b.len();
    assert(at + width <= total);
    let mut rest: u64 = n;
    let mut k: usize = width;
    proof {
        reveal_with_fuel(pow256, 9);
    }
    while k > 0
        invariant
            k <= width,
            width == 4 || width == 8,
            at + width <= total,
            b@.len() == total == old(b)@.len(),
            rest as int == n as int / pow256(width - k),
            pow256(width - k) >= 1,
            forall|i: int|
                0 <= i < total ==> #[trigger] b@[i] == if at + k <= i < at + width {
                    be_byte(n as int, width as int, i - at)
                } else {
                    old(b)@[i]
                },
        decreases k,
    {
        k -= 1;
        let byte: u8 = (rest % 256) as u8;
        proof {
            reveal_with_fuel(pow256, 9);
            assert(byte == be_byte(n as int, width as int, k as int));
            let d = pow256(width - 1 - k);
            assert(pow256(width - k) == 256 * d);
            vstd::arithmetic::div_mod::lemma_div_denominator(n as int, d, 256);
            assert(d * 256 == 256 * d);
        }
        b.set(at + k, byte);
        rest = rest / 256;
    }
    assert(b@ =~= with_number(old(b)@, at as int, n as int, width as int));
}

/// Writes a duration into a header box.
pub fn write_fullbox_duration(
    b: &mut Vec<u8>,
    from: usize,
    to: usize,
    kind: FullboxKind,
    duration: u64,
)
    requires
        from <= to <= old(b)@.len(),
    ensures
        final(b)@ == with_duration(old(b)@, from as int, to as int, kind, duration as int),
{
    if to - from < 4 {
        return;
    }
    let (_, offset, wide) = fullbox_layout(kind, b[from]);
    let width: usize = if wide { 8 } else { 4 };
    if to - from < 4 + offset + width {
        return;
    }
    let n: u64 = if !wide && duration > u32::MAX as u64 { u32::MAX as u64 } else { duration };
    write_number(b, from + 4 + offset, n, width);
}

/// The duration in the payload `b[from..to]`, if it holds one.
pub open spec fn duration_in(b: Seq<u8>, from: int, to: int, kind: FullboxKind) -> Option<int> {
    if to - from < 4 {
        None
    } else {
        let width = duration_width(b[from]);
        let at = from + 4 + duration_offset(kind, b[from]);
        if at + width > to {
            None
        } else if width == 4 {
            Some(producer::be32(b, at))
        } else {
            Some(be64(b, at))
        }
    }
}

proof fn number_read_back_4(b: Seq<u8>, at: int, n: int)
    requires
        0 <= at,
        at + 4 <= b.len(),
        0 <= n <= u32::MAX,
    ensures
        producer::be32(with_number(b, at, n, 4), at) == n,
{
    reveal_with_fuel(pow256, 4);
    assert(pow256(0) == 1);
    assert(pow256(1) == 0x100);
    assert(pow256(2) == 0x1_0000);
    assert(pow256(3) == 0x100_0000);
}

/// The upper half of a 64-bit number has the bytes of the number with that value.
proof fn upper_bytes(n: int, k: int)
    requires
        0 <= n <= u64::MAX,
        0 <= k < 4,
    ensures
        be_byte(n, 8, k) == be_byte(n / 0x1_0000_0000, 4, k),
{
    reveal_with_fuel(pow256, 8);
    let d = pow256(3 - k);
    assert(pow256(7 - k) == 0x1_0000_0000 * d);
    assert(d > 0);
    vstd::arithmetic::div_mod::lemma_div_denominator(n, 0x1_0000_0000, d);
}

proof fn byte_below(high: int, low: int, d: int, g: int)
    requires
        d > 0,
    ensures
        ((high * (256 * g * d) + low) / d) % 256 == (low / d) % 256,
{
    let j = high * (256 * g);
    assert(high * (256 * g * d) == j * d) by (nonlinear_arith)
        requires
            j == high * (256 * g),
    ;
    vstd::arithmetic::div_mod::lemma_hoist_over_denominator(low, j, d as nat);
    assert(j == 256 * (high * g)) by (nonlinear_arith)
        requires
            j == high * (256 * g),
    ;
    vstd::arithmetic::div_mod::lemma_mod_multiples_vanish(high * g, low / d, 256);
}

/// And so has the lower half.
proof fn lower_bytes(n: int, k: int)
    requires
        0 <= n <= u64::MAX,
        0 <= k < 4,
    ensures
        be_byte(n, 8, k + 4) == be_byte(n % 0x1_0000_0000, 4, k),
{
    let d = pow256(3 - k);
    let g = pow256(k);
    assert(d > 0 && 256 * g * d == 0x1_0000_0000) by {
        reveal_with_fuel(pow256, 4);
        assert(pow256(0) == 1 && pow256(1) == 0x100 && pow256(2) == 0x1_0000);
        assert(pow256(3) == 0x100_0000);
        if k == 0 {
            assert(g == 1 && d == 0x100_0000);
        } else if k == 1 {
            assert(g == 0x100 && d == 0x1_0000);
        } else if k == 2 {
            assert(g == 0x1_0000 && d == 0x100);
        } else {
            assert(g == 0x100_0000 && d == 1);
        }
    }
    byte_below(n / 0x1_0000_0000, n % 0x1_0000_0000, d, g);
    assert(n == (n / 0x1_0000_0000) * 0x1_0000_0000 + n % 0x1_0000_0000);
}

proof fn number_read_back_8(b: Seq<u8>, at: int, n: int)
    requires
        0 <= at,
        at + 8 <= b.len(),
        0 <= n <= u64::MAX,
    ensures
        be64(with_number(b, at, n, 8), at) == n,
{
    let high = n / 0x1_0000_0000;
    let low = n % 0x1_0000_0000;
    let upper = with_number(b, at, high, 4);
    let c = with_number(b, at, n, 8);
    let both = with_number(upper, at + 4, low, 4);
    assert forall|i: int| 0 <= i < b.len() implies c[i] == both[i] by {
        if at <= i < at + 4 {
            upper_bytes(n, i - at);
        } else if at + 4 <= i < at + 8 {
            lower_bytes(n, i - at - 4);
        }
    }
    assert(c =~= both);
    number_read_back_4(b, at, high);
    number_read_back_4(upper, at + 4, low);
    assert(producer::be32(both, at) == producer::be32(upper, at));
}

/// A duration that was filled in is read back: as it is, or, where the field is too
/// narrow for it, as the greatest number. A payload that is too short holds none.
pub proof fn duration_is_read_back(
    b: Seq<u8>,
    from: int,
    to: int,
    kind: FullboxKind,
    duration: int,
)
    requires
        0 <= from <= to <= b.len(),
        0 <= duration <= u64::MAX,
    ensures
        duration_in(with_duration(b, from, to, kind, duration), from, to, kind) == match duration_in(
            b,
            from,
            to,
            kind,
        ) {
            Some(_) => Some(fitted(duration, duration_width(b[from]))),
            None => None,
        },
{
    if to - from >= 4 {
        let width = duration_width(b[from]);
        let at = from + 4 + duration_offset(kind, b[from]);
        if at + width <= to {
            let n = fitted(duration, width);
            assert(with_number(b, at, n, width)[from] == b[from]);
            if width == 4 {
                number_read_back_4(b, at, n);
            } else {
                number_read_back_8(b, at, n);
            }
        }
    }
}

// ---- the whole header ----

/// A time in units of a time scale, rounded to the nearest in the precision of a 64-bit
/// float, ties up; the greatest number where it does not fit.
pub open spec fn in_timescale(us: int, timescale: int) -> int {
    let n = numbers::rounded_product(us as nat, 1_000_000, timescale as nat) as int;
    if n > u64::MAX {
        u64::MAX as int
    } else {
        n
    }
}

/// A time below two to the power of 31 units is rounded as it is, unless it lies exactly
/// between two units.
pub proof fn short_times_are_exact(us: nat, timescale: nat)
    requires
        us * timescale < 0x8000_0000 * 1_000_000,
        (us * timescale) % 1_000_000 != 500_000,
    ensures
        in_timescale(us as int, timescale as int) == (us * timescale + 500_000) / 1_000_000,
{
    numbers::small_products_are_exact(us, timescale);
}

fn scaled(us: u64, timescale: u32) -> (r: u64)
    ensures
        r == in_timescale(us as int, timescale as int),
{
    let n: u128 = numbers::millionths_times(us, timescale);
    if n > u64::MAX as u128 {
        u64::MAX
    } else {
        n as u64
    }
}

/// The first leaf of type `name`.
pub open spec fn first_leaf(ls: Seq<Leaf>, name: u32) -> Option<Leaf>
    decreases ls.len(),
{
    if ls.len() == 0 {
        None
    } else if ls[0].name == name {
        Some(ls[0])
    } else {
        first_leaf(ls.skip(1), name)
    }
}

/// The time scale of the movie.
pub open spec fn movie_timescale(b: Seq<u8>, ls: Seq<Leaf>) -> int {
    match first_leaf(ls, MVHD) {
        Some(l) => match timescale_in(b, l.from as int, l.to as int, FullboxKind::Mvhd) {
            Some(t) => t,
            None => DEFAULT_TIMESCALE as int,
        },
        None => DEFAULT_TIMESCALE as int,
    }
}

/// `b` with the duration of one leaf filled in. Movie, track and fragment headers
/// count in the movie's time scale, a media header in its own.
pub open spec fn with_leaf(b: Seq<u8>, l: Leaf, us: int, movie_duration: int) -> Seq<u8> {
    if l.name == MVHD {
        with_duration(b, l.from as int, l.to as int, FullboxKind::Mvhd, movie_duration)
    } else if l.name == TKHD {
        with_duration(b, l.from as int, l.to as int, FullboxKind::Tkhd, movie_duration)
    } else if l.name == MEHD {
        with_duration(b, l.from as int, l.to as int, FullboxKind::Mehd, movie_duration)
    } else if l.name == MDHD {
        match timescale_in(b, l.from as int, l.to as int, FullboxKind::Mdhd) {
            Some(t) => with_duration(
                b,
                l.from as int,
                l.to as int,
                FullboxKind::Mdhd,
                in_timescale(us, t),
            ),
            None => b,
        }
    } else {
        b
    }
}

/// `b` with the durations of all leaves filled in, in order.
pub open spec fn with_leaves(b: Seq<u8>, ls: Seq<Leaf>, us: int, movie_duration: int) -> Seq<u8>
    decreases ls.len(),
{
    if ls.len() == 0 {
        b
    } else {
        with_leaf(with_leaves(b, ls.drop_last(), us, movie_duration), ls.last(), us, movie_duration)
    }
}

/// `b` with all durations in the `moov` box `b[start..end]` filled in; unchanged where
/// no such box stands there.
pub open spec fn with_durations(b: Seq<u8>, start: int, end: int, us: int) -> Seq<u8> {
    if end - start < 8 || box_name(b, start) != MOOV {
        b
    } else {
        let ls = leaves(b, start + 8, end);
        with_leaves(b, ls, us, in_timescale(us, movie_timescale(b, ls)))
    }
}

proof fn leaves_within(b: Seq<u8>, p: int, end: int, k: int)
    requires
        0 <= p <= end <= b.len() <= usize::MAX,
        0 <= k < leaves(b, p, end).len(),
    ensures
        p + 8 <= leaves(b, p, end)[k].from <= leaves(b, p, end)[k].to <= end,
    decreases end - p,
{
    match box_end(b, p, end) {
        Some(e) => {
            let from = p + header_len(b, p);
            let here = if is_container(box_name(b, p)) {
                leaves(b, from, e)
            } else {
                seq![Leaf { name: box_name(b, p) as u32, from: from as usize, to: e as usize }]
            };
            if k < here.len() {
                assert(leaves(b, p, end)[k] == here[k]);
                if is_container(box_name(b, p)) {
                    leaves_within(b, from, e, k);
                }
            } else {
                assert(leaves(b, p, end)[k] == leaves(b, e, end)[k - here.len()]);
                leaves_within(b, e, end, k - here.len());
            }
        },
        None => {},
    }
}

proof fn with_leaves_len(b: Seq<u8>, ls: Seq<Leaf>, us: int, movie_duration: int)
    ensures
        with_leaves(b, ls, us, movie_duration).len() == b.len(),
    decreases ls.len(),
{
    if ls.len() > 0 {
        with_leaves_len(b, ls.drop_last(), us, movie_duration);
    }
}

fn find_leaf(ls: &Vec<Leaf>, name: u32) -> (r: Option<Leaf>)
    ensures
        r == first_leaf(ls@, name),
        r matches Some(l) ==> ls@.contains(l),
{
    let mut i: usize = 0;
    assert(ls@.skip(0) =~= ls@);
    while i < ls.len()
        invariant
            i <= ls@.len(),
            first_leaf(ls@, name) == first_leaf(ls@.skip(i as int), name),
        decreases ls@.len() - i,
    {
        assert(ls@.skip(i as int).skip(1) =~= ls@.skip(i + 1));
        if ls[i].name == name {
            assert(ls@.contains(ls@[i as int]));
            return Some(ls[i]);
        }
        i += 1;
    }
    None
}

/// Fills the known length of a stream into the durations of its `moov` box.
pub fn patch_mp4_moov_durations(b: &mut Vec<u8>, start: usize, end: usize, total_us: u64)
    requires
        start <= end <= old(b)@.len(),
    ensures
        final(b)@ == with_durations(old(b)@, start as int, end as int, total_us as int),
        final(b)@.len() == old(b)@.len(),
{
    let total: usize = b.len();
    if end - start < 8 || producer::read_be32(b, start + 4) != MOOV {
        return;
    }
    let mut ls: Vec<Leaf> = Vec::new();
    collect_leaf_boxes(b, start + 8, end, &mut ls);
    assert(ls@ =~= leaves(b@, start + 8, end as int));
    assert forall|k: int| 0 <= k < ls@.len() implies (#[trigger] ls@[k]).from <= ls@[k].to <= end by {
        leaves_within(b@, start + 8, end as int, k);
    }
    let mut timescale: u32 = DEFAULT_TIMESCALE;
    if let Some(l) = find_leaf(&ls, MVHD) {
        let ghost k = choose|k: int| 0 <= k < ls@.len() && ls@[k] == l;
        assert(ls@[k].from <= ls@[k].to <= end);
        if let Some(t) = read_fullbox_timescale(b, l.from, l.to, FullboxKind::Mvhd) {
            timescale = t;
        }
    }
    let movie: u64 = scaled(total_us, timescale);
    let ghost original = b@;
    let mut i: usize = 0;
    assert(ls@.take(0) =~= Seq::<Leaf>::empty());
    while i < ls.len()
        invariant
            i <= ls@.len(),
            end <= original.len(),
            b@.len() == original.len(),
            forall|k: int| 0 <= k < ls@.len() ==> (#[trigger] ls@[k]).from <= ls@[k].to <= end,
            b@ == with_leaves(original, ls@.take(i as int), total_us as int, movie as int),
        decreases ls@.len() - i,
    {
        let l: Leaf = ls[i];
        assert(ls@.take(i + 1).drop_last() =~= ls@.take(i as int));
        assert(ls@.take(i + 1).last() == l);
        if l.name == MVHD {
            write_fullbox_duration(b, l.from, l.to, FullboxKind::Mvhd, movie);
        } else if l.name == TKHD {
            write_fullbox_duration(b, l.from, l.to, FullboxKind::Tkhd, movie);
        } else if l.name == MEHD {
            write_fullbox_duration(b, l.from, l.to, FullboxKind::Mehd, movie);
        } else if l.name == MDHD {
            if let Some(t) = read_fullbox_timescale(b, l.from, l.to, FullboxKind::Mdhd) {
                let d: u64 = scaled(total_us, t);
                write_fullbox_duration(b, l.from, l.to, FullboxKind::Mdhd, d);
            }
        }
        i += 1;
    }
    assert(ls@.take(i as int) =~= ls@);
}

// ---- laws ----

/// `b` and `c` differ at most inside the payloads of the leaves of `b[p..end]`.
pub open spec fn agree_outside_leaves(b: Seq<u8>, c: Seq<u8>, ls: Seq<Leaf>, p: int, end: int) -> bool {
    &&& b.len() == c.len()
    &&& forall|i: int|
        p <= i < end && (forall|k: int|
            0 <= k < ls.len() ==> !((#[trigger] ls[k]).from <= i < ls[k].to)) ==> #[trigger] b[i]
            == c[i]
}

proof fn same_leaves(b: Seq<u8>, c: Seq<u8>, p: int, end: int)
    requires
        0 <= p <= end <= b.len() <= usize::MAX,
        agree_outside_leaves(b, c, leaves(b, p, end), p, end),
    ensures
        leaves(c, p, end) == leaves(b, p, end),
    decreases end - p,
{
    let all = leaves(b, p, end);
    assert forall|i: int| p <= i < p + 8 && i < end implies b[i] == c[i] by {
        assert forall|k: int| 0 <= k < all.len() implies !((#[trigger] all[k]).from <= i
            < all[k].to) by {
            leaves_within(b, p, end, k);
        }
    }
    if p + 8 <= end {
        assert(producer::be32(b, p) == producer::be32(c, p));
        assert(box_name(b, p) == box_name(c, p));
        if producer::be32(b, p) == 1 && p + 16 <= end {
            assert forall|i: int| p + 8 <= i < p + 16 implies b[i] == c[i] by {
                assert forall|k: int| 0 <= k < all.len() implies !((#[trigger] all[k]).from <= i
                    < all[k].to) by {
                    leaf_after_header(b, p, end, k);
                }
            }
            assert(be64(b, p + 8) == be64(c, p + 8));
        }
        assert(box_end(b, p, end) == box_end(c, p, end));
        match box_end(b, p, end) {
            Some(e) => {
                let from = p + header_len(b, p);
                let here = if is_container(box_name(b, p)) {
                    leaves(b, from, e)
                } else {
                    seq![Leaf { name: box_name(b, p) as u32, from: from as usize, to: e as usize }]
                };
                let rest = leaves(b, e, end);
                assert(all == here + rest);
                if is_container(box_name(b, p)) {
                    assert(agree_outside_leaves(b, c, here, from, e)) by {
                        assert forall|i: int|
                            from <= i < e && (forall|k: int|
                                0 <= k < here.len() ==> !((#[trigger] here[k]).from <= i
                                    < here[k].to)) implies #[trigger] b[i] == c[i] by {
                            assert forall|k: int| 0 <= k < all.len() implies !((
                            #[trigger] all[k]).from <= i < all[k].to) by {
                                if k < here.len() {
                                    assert(all[k] == here[k]);
                                } else {
                                    assert(all[k] == rest[k - here.len()]);
                                    leaves_within(b, e, end, k - here.len());
                                }
                            }
                        }
                    }
                    same_leaves(b, c, from, e);
                }
                assert(agree_outside_leaves(b, c, rest, e, end)) by {
                    assert forall|i: int|
                        e <= i < end && (forall|k: int|
                            0 <= k < rest.len() ==> !((#[trigger] rest[k]).from <= i
                                < rest[k].to)) implies #[trigger] b[i] == c[i] by {
                        assert forall|k: int| 0 <= k < all.len() implies !((#[trigger] all[k]).from
                            <= i < all[k].to) by {
                            if k < here.len() {
                                assert(all[k] == here[k]);
                                if is_container(box_name(b, p)) {
                                    leaves_within(b, from, e, k);
                                }
                            } else {
                                assert(all[k] == rest[k - here.len()]);
                            }
                        }
                    }
                }
                same_leaves(b, c, e, end);
            },
            None => {},
        }
    }
}

proof fn leaf_after_header(b: Seq<u8>, p: int, end: int, k: int)
    requires
        0 <= p <= end <= b.len() <= usize::MAX,
        0 <= k < leaves(b, p, end).len(),
    ensures
        p + header_len(b, p) <= leaves(b, p, end)[k].from,
{
    match box_end(b, p, end) {
        Some(e) => {
            let from = p + header_len(b, p);
            let here = if is_container(box_name(b, p)) {
                leaves(b, from, e)
            } else {
                seq![Leaf { name: box_name(b, p) as u32, from: from as usize, to: e as usize }]
            };
            if k < here.len() {
                assert(leaves(b, p, end)[k] == here[k]);
                if is_container(box_name(b, p)) {
                    leaves_within(b, from, e, k);
                }
            } else {
                assert(leaves(b, p, end)[k] == leaves(b, e, end)[k - here.len()]);
                leaves_within(b, e, end, k - here.len());
            }
        },
        None => {},
    }
}

proof fn with_leaves_frame(b: Seq<u8>, ls: Seq<Leaf>, us: int, movie_duration: int, i: int)
    requires
        0 <= i < b.len(),
        forall|k: int| 0 <= k < ls.len() ==> !((#[trigger] ls[k]).from <= i < ls[k].to),
    ensures
        with_leaves(b, ls, us, movie_duration)[i] == b[i],
        with_leaves(b, ls, us, movie_duration).len() == b.len(),
    decreases ls.len(),
{
    if ls.len() > 0 {
        let t = ls.drop_last();
        assert forall|k: int| 0 <= k < t.len() implies !((#[trigger] t[k]).from <= i < t[k].to) by {
            assert(t[k] == ls[k]);
        }
        with_leaves_frame(b, t, us, movie_duration, i);
        assert(!(ls[ls.len() - 1].from <= i < ls[ls.len() - 1].to));
    }
}

/// Filling in durations changes nothing but the payloads of leaves: lengths and the
/// whole structure of the boxes stay as they were, and so does everything outside
/// the `moov` box.
pub proof fn patching_keeps_structure(b: Seq<u8>, start: int, end: int, us: int)
    requires
        0 <= start <= end <= b.len() <= usize::MAX,
        end - start >= 8,
    ensures
        with_durations(b, start, end, us).len() == b.len(),
        leaves(with_durations(b, start, end, us), start + 8, end) == leaves(b, start + 8, end),
        forall|i: int|
            0 <= i < start + 8 || end <= i < b.len() ==> #[trigger] with_durations(
                b,
                start,
                end,
                us,
            )[i] == b[i],
{
    let ls = leaves(b, start + 8, end);
    let movie = in_timescale(us, movie_timescale(b, ls));
    let c = with_durations(b, start, end, us);
    with_leaves_len(b, ls, us, movie);
    if box_name(b, start) == MOOV {
        assert forall|i: int| 0 <= i < b.len() && (forall|k: int|
            0 <= k < ls.len() ==> !((#[trigger] ls[k]).from <= i < ls[k].to)) implies #[trigger] c[i]
            == b[i] by {
            with_leaves_frame(b, ls, us, movie, i);
        }
        assert(agree_outside_leaves(b, c, ls, start + 8, end));
        same_leaves(b, c, start + 8, end);
        assert forall|i: int|
            0 <= i < start + 8 || end <= i < b.len() implies #[trigger] c[i] == b[i] by {
            assert forall|k: int| 0 <= k < ls.len() implies !((#[trigger] ls[k]).from <= i
                < ls[k].to) by {
                leaves_within(b, start + 8, end, k);
            }
        }
    }
}

/// The kind of a leaf that holds a duration.
pub open spec fn leaf_kind(name: u32) -> Option<FullboxKind> {
    if name == MVHD {
        Some(FullboxKind::Mvhd)
    } else if name == TKHD {
        Some(FullboxKind::Tkhd)
    } else if name == MEHD {
        Some(FullboxKind::Mehd)
    } else if name == MDHD {
        Some(FullboxKind::Mdhd)
    } else {
        None
    }
}

/// The length of the stream in the time scale of a leaf: a media header's own, else the
/// movie's. `None` for a media header without a time scale.
pub open spec fn leaf_units(b: Seq<u8>, ls: Seq<Leaf>, l: Leaf, us: int) -> Option<int> {
    if l.name == MDHD {
        match timescale_in(b, l.from as int, l.to as int, FullboxKind::Mdhd) {
            Some(t) => Some(in_timescale(us, t)),
            None => None,
        }
    } else {
        Some(in_timescale(us, movie_timescale(b, ls)))
    }
}

proof fn leaves_in_order(b: Seq<u8>, p: int, end: int, i: int, j: int)
    requires
        0 <= p <= end <= b.len() <= usize::MAX,
        0 <= i < j < leaves(b, p, end).len(),
    ensures
        leaves(b, p, end)[i].to <= leaves(b, p, end)[j].from,
    decreases end - p,
{
    match box_end(b, p, end) {
        Some(e) => {
            let from = p + header_len(b, p);
            let nested = is_container(box_name(b, p));
            let here = if nested {
                leaves(b, from, e)
            } else {
                seq![Leaf { name: box_name(b, p) as u32, from: from as usize, to: e as usize }]
            };
            let rest = leaves(b, e, end);
            assert(leaves(b, p, end) == here + rest);
            if j < here.len() {
                leaves_in_order(b, from, e, i, j);
            } else if i >= here.len() {
                leaves_in_order(b, e, end, i - here.len(), j - here.len());
            } else {
                if nested {
                    leaves_within(b, from, e, i);
                }
                leaves_within(b, e, end, j - here.len());
            }
        },
        None => {},
    }
}

proof fn with_leaf_is_local(b: Seq<u8>, c: Seq<u8>, l: Leaf, us: int, movie_duration: int, i: int)
    requires
        b.len() == c.len(),
        l.from <= i < l.to <= b.len(),
        forall|x: int| l.from <= x < l.to ==> b[x] == c[x],
    ensures
        with_leaf(b, l, us, movie_duration)[i] == with_leaf(c, l, us, movie_duration)[i],
{
    let at = l.from + 4 + if b[l.from as int] == 0 {
        8int
    } else {
        16int
    };
    if l.to - l.from >= 4 && at + 4 <= l.to {
        assert(producer::be32(b, at) == producer::be32(c, at));
    }
}

/// What becomes of the payload of leaf `k` is what filling in that leaf alone makes of it.
proof fn leaf_is_filled(b: Seq<u8>, ls: Seq<Leaf>, us: int, movie_duration: int, k: int, i: int)
    requires
        0 <= k < ls.len(),
        forall|x: int, y: int|
            0 <= x < y < ls.len() ==> #[trigger] ls[x].to <= #[trigger] ls[y].from,
        ls[k].from <= i < ls[k].to <= b.len(),
    ensures
        with_leaves(b, ls, us, movie_duration)[i] == with_leaf(b, ls[k], us, movie_duration)[i],
    decreases ls.len(),
{
    let t = ls.drop_last();
    let before = with_leaves(b, t, us, movie_duration);
    with_leaves_len(b, t, us, movie_duration);
    assert forall|x: int, y: int| 0 <= x < y < t.len() implies #[trigger] t[x].to
        <= #[trigger] t[y].from by {
        assert(ls[x].to <= ls[y].from);
    }
    if k == ls.len() - 1 {
        assert forall|x: int| ls[k].from <= x < ls[k].to implies before[x] == b[x] by {
            assert forall|y: int| 0 <= y < t.len() implies !((#[trigger] t[y]).from <= x
                < t[y].to) by {
                assert(ls[y].to <= ls[k].from);
            }
            with_leaves_frame(b, t, us, movie_duration, x);
        }
        with_leaf_is_local(before, b, ls[k], us, movie_duration, i);
    } else {
        assert(t[k] == ls[k]);
        leaf_is_filled(b, t, us, movie_duration, k, i);
        assert(ls[k].to <= ls[ls.len() - 1].from);
    }
}

proof fn duration_in_is_local(b: Seq<u8>, c: Seq<u8>, from: int, to: int, kind: FullboxKind)
    requires
        b.len() == c.len(),
        0 <= from <= to <= b.len(),
        forall|x: int| from <= x < to ==> b[x] == c[x],
    ensures
        duration_in(b, from, to, kind) == duration_in(c, from, to, kind),
{
    if to - from >= 4 {
        let at = from + 4 + duration_offset(kind, b[from]);
        if at + duration_width(b[from]) <= to {
            assert(producer::be32(b, at) == producer::be32(c, at));
            if duration_width(b[from]) == 8 {
                assert(producer::be32(b, at + 4) == producer::be32(c, at + 4));
            }
        }
    }
}

/// Once the durations are filled in, every movie, track, fragment and media header that
/// has a field for one gives the length of the stream in its time scale, or the greatest
/// number that the field holds.
pub proof fn header_gives_length(b: Seq<u8>, start: int, end: int, us: int, k: int)
    requires
        0 <= start <= end <= b.len() <= usize::MAX,
        end - start >= 8,
        box_name(b, start) == MOOV,
        0 <= us,
        0 <= k < leaves(b, start + 8, end).len(),
        leaf_kind(leaves(b, start + 8, end)[k].name) is Some,
    ensures
        ({
            let ls = leaves(b, start + 8, end);
            let l = ls[k];
            let kind = leaf_kind(l.name)->0;
            let given = duration_in(with_durations(b, start, end, us), l.from as int, l.to as int, kind);
            match (duration_in(b, l.from as int, l.to as int, kind), leaf_units(b, ls, l, us)) {
                (Some(_), Some(n)) => given == Some(fitted(n, duration_width(b[l.from as int]))),
                (unfilled, _) => given == unfilled,
            }
        }),
{
    let ls = leaves(b, start + 8, end);
    let l = ls[k];
    let kind = leaf_kind(l.name)->0;
    let movie = in_timescale(us, movie_timescale(b, ls));
    let c = with_durations(b, start, end, us);
    let alone = with_leaf(b, l, us, movie);
    with_leaves_len(b, ls, us, movie);
    leaves_within(b, start + 8, end, k);
    assert forall|x: int, y: int| 0 <= x < y < ls.len() implies #[trigger] ls[x].to
        <= #[trigger] ls[y].from by {
        leaves_in_order(b, start + 8, end, x, y);
    }
    assert forall|i: int| l.from <= i < l.to implies c[i] == alone[i] by {
        leaf_is_filled(b, ls, us, movie, k, i);
    }
    duration_in_is_local(c, alone, l.from as int, l.to as int, kind);
    match leaf_units(b, ls, l, us) {
        Some(n) => {
            assert(0 <= n <= u64::MAX) by {
                timescale_is_natural(b, ls, l, us);
            }
            duration_is_read_back(b, l.from as int, l.to as int, kind, n);
        },
        None => {},
    }
}

proof fn timescale_is_natural(b: Seq<u8>, ls: Seq<Leaf>, l: Leaf, us: int)
    requires
        0 <= us,
    ensures
        leaf_units(b, ls, l, us) matches Some(n) ==> 0 <= n <= u64::MAX,
{
    let t = if l.name == MDHD {
        timescale_in(b, l.from as int, l.to as int, FullboxKind::Mdhd)
    } else {
        Some(movie_timescale(b, ls))
    };
    if t is Some {
        let n = t->0;
        assert(n >= 0);
        assert(us * n >= 0) by (nonlinear_arith)
            requires
                us >= 0,
                n >= 0,
        ;
    }
}

// ---- the stream ----

/// So much is buffered at most while the header has not arrived.
pub const BUFFER_LIMIT: usize = 4_194_304;

/// Fills the durations in while a stream passes through: the bytes are held back until
/// the header is complete, then everything passes as it is.
#[derive(Debug)]
pub struct HeaderFilter {
    pub buffering: bool,
    pub held: Vec<u8>,
    pub total_us: Option<u64>,
}

impl HeaderFilter {
    /// A filter that holds back only if it buffers.
    pub open spec fn valid(&self) -> bool {
        !self.buffering ==> self.held@.len() == 0
    }

    /// A filter for a stream of known or unknown length; one that is not active passes
    /// everything on.
    pub fn new(active: bool, total_us: Option<u64>) -> (r: Self)
        ensures
            r.buffering == active,
            r.held@.len() == 0,
            r.total_us == total_us,
            r.valid(),
    {
        HeaderFilter { buffering: active, held: Vec::new(), total_us }
    }

    /// What the bytes held back become once the header among them is complete.
    pub open spec fn patched(bytes: Seq<u8>, total_us: Option<u64>) -> Seq<u8> {
        match (top_level(bytes, 0, MOOV as int), total_us) {
            (Some(x), Some(us)) => with_durations(bytes, x.0, x.1, us as int),
            _ => bytes,
        }
    }

    /// Takes in what the encoder wrote; returns what goes on to the client, if anything
    /// does.
    pub fn feed(&mut self, chunk: Vec<u8>) -> (r: Option<Vec<u8>>)
        requires
            old(self).valid(),
            old(self).held@.len() + chunk@.len() <= usize::MAX,
        ensures
            final(self).valid(),
            final(self).total_us == old(self).total_us,
            !old(self).buffering ==> !final(self).buffering && (r matches Some(out) && out@ == chunk@),
            old(self).buffering ==> ({
                let all = old(self).held@ + chunk@;
                let complete = top_level(all, 0, MOOV as int) is Some;
                if complete || all.len() > BUFFER_LIMIT {
                    &&& !final(self).buffering
                    &&& r matches Some(out) && out@ == if complete {
                        HeaderFilter::patched(all, old(self).total_us)
                    } else {
                        all
                    }
                } else {
                    final(self).buffering && final(self).held@ == all && r is None
                }
            }),
    {
        if !self.buffering {
            return Some(chunk);
        }
        let mut all: Vec<u8> = Vec::new();
        std::mem::swap(&mut all, &mut self.held);
        let ghost before = all@;
        let mut i: usize = 0;
        while i < chunk.len()
            invariant
                i <= chunk@.len(),
                before.len() + chunk@.len() <= usize::MAX,
                all@ == before + chunk@.take(i as int),
            decreases chunk@.len() - i,
        {
            all.push(chunk[i]);
            assert(chunk@.take(i + 1) =~= chunk@.take(i as int).push(chunk@[i as int]));
            assert(all@ =~= before + chunk@.take(i + 1));
            i += 1;
        }
        assert(chunk@.take(i as int) =~= chunk@);
        match find_top_level_box(&all, MOOV) {
            Some((start, end)) => {
                if let Some(us) = self.total_us {
                    patch_mp4_moov_durations(&mut all, start, end, us);
                }
                self.buffering = false;
                Some(all)
            },
            None => {
                if all.len() > BUFFER_LIMIT {
                    self.buffering = false;
                    return Some(all);
                }
                self.held = all;
                None
            },
        }
    }

    /// The encoder is done: what was still held back goes on as it is.
    pub fn finish(&mut self) -> (r: Option<Vec<u8>>)
        requires
            old(self).valid(),
        ensures
            !final(self).buffering,
            final(self).held@.len() == 0,
            final(self).total_us == old(self).total_us,
            r is Some <==> old(self).held@.len() > 0,
            r matches Some(out) ==> out@ == old(self).held@,
    {
        let mut all: Vec<u8> = Vec::new();
        std::mem::swap(&mut all, &mut self.held);
        self.buffering = false;
        if all.len() == 0 {
            None
        } else {
            Some(all)
        }
    }
}

// ---- where the fields stand ----

/// The durations and the time scales are read from where the format has them: behind the
/// version, the flags and the times of creation and change.
pub proof fn fields_stand_where_the_format_has_them(b: Seq<u8>, from: int, to: int)
    requires
        0 <= from,
        to - from >= 36,
        to <= b.len(),
    ensures
        b[from] == 0 ==> {
            &&& duration_in(b, from, to, FullboxKind::Mvhd) == Some(producer::be32(b, from + 16))
            &&& duration_in(b, from, to, FullboxKind::Mdhd) == Some(producer::be32(b, from + 16))
            &&& duration_in(b, from, to, FullboxKind::Tkhd) == Some(producer::be32(b, from + 20))
            &&& duration_in(b, from, to, FullboxKind::Mehd) == Some(producer::be32(b, from + 4))
            &&& timescale_in(b, from, to, FullboxKind::Mvhd) == Some(producer::be32(b, from + 12))
            &&& timescale_in(b, from, to, FullboxKind::Mdhd) == Some(producer::be32(b, from + 12))
        },
        b[from] == 1 ==> {
            &&& duration_in(b, from, to, FullboxKind::Mvhd) == Some(be64(b, from + 24))
            &&& duration_in(b, from, to, FullboxKind::Mdhd) == Some(be64(b, from + 24))
            &&& duration_in(b, from, to, FullboxKind::Tkhd) == Some(be64(b, from + 28))
            &&& duration_in(b, from, to, FullboxKind::Mehd) == Some(be64(b, from + 4))
            &&& timescale_in(b, from, to, FullboxKind::Mvhd) == Some(producer::be32(b, from + 20))
            &&& timescale_in(b, from, to, FullboxKind::Mdhd) == Some(producer::be32(b, from + 20))
        },
        timescale_in(b, from, to, FullboxKind::Tkhd) is None,
        timescale_in(b, from, to, FullboxKind::Mehd) is None,
{
}

/// The types of the boxes are their names, letter by letter.
pub proof fn box_types_are_spelled()
    ensures
        producer::be32(seq!['m' as u8, 'o' as u8, 'o' as u8, 'v' as u8], 0) == MOOV,
        producer::be32(seq!['t' as u8, 'r' as u8, 'a' as u8, 'k' as u8], 0) == TRAK,
        producer::be32(seq!['m' as u8, 'd' as u8, 'i' as u8, 'a' as u8], 0) == MDIA,
        producer::be32(seq!['m' as u8, 'v' as u8, 'e' as u8, 'x' as u8], 0) == MVEX,
        producer::be32(seq!['m' as u8, 'v' as u8, 'h' as u8, 'd' as u8], 0) == MVHD,
        producer::be32(seq!['t' as u8, 'k' as u8, 'h' as u8, 'd' as u8], 0) == TKHD,
        producer::be32(seq!['m' as u8, 'd' as u8, 'h' as u8, 'd' as u8], 0) == MDHD,
        producer::be32(seq!['m' as u8, 'e' as u8, 'h' as u8, 'd' as u8], 0) == MEHD,
        is_container(MOOV as int) && is_container(TRAK as int) && is_container(MDIA as int)
            && is_container(MVEX as int),
        !is_container(MVHD as int) && !is_container(TKHD as int) && !is_container(MDHD as int)
            && !is_container(MEHD as int),
{
}

/// Boxes of other types are passed over by their size, and the first of the type is found
/// from its first byte to its last. One that is not there as a whole is not found.
pub proof fn boxes_are_passed_over_by_their_size(b: Seq<u8>, p: int, name: int)
    requires
        0 <= p,
        p + 8 <= b.len(),
        producer::be32(b, p) >= 8,
    ensures
        ({
            let size = producer::be32(b, p);
            let found = producer::be32(b, p + 4) == name;
            &&& p + size <= b.len() && found ==> top_level(b, p, name) == Some((p, p + size))
            &&& p + size <= b.len() && !found ==> top_level(b, p, name) == top_level(
                b,
                p + size,
                name,
            )
            &&& p + size > b.len() ==> top_level(b, p, name) is None
        }),
{
}

/// A box that gives its length in thirty-two bits ends where that length says, counted from
/// its start; one that gives none ends with what holds it; one that says less than its own
/// head or more than there is, is none.
pub proof fn boxes_end_where_they_say(b: Seq<u8>, p: int, end: int)
    requires
        p + 8 <= end,
    ensures
        ({
            let size = producer::be32(b, p);
            &&& size == 0 ==> box_end(b, p, end) == Some(end)
            &&& 8 <= size && p + size <= end ==> box_end(b, p, end) == Some(p + size)
            &&& 1 < size < 8 ==> box_end(b, p, end) is None
            &&& size > 1 && p + size > end ==> box_end(b, p, end) is None
            &&& size == 1 && p + 16 > end ==> box_end(b, p, end) is None
            &&& size == 1 && p + 16 <= end && 16 <= be64(b, p + 8) <= end - p ==> box_end(
                b,
                p,
                end,
            ) == Some(p + be64(b, p + 8))
            &&& size == 1 && be64(b, p + 8) < 16 ==> box_end(b, p, end) is None
        }),
{
}

} // verus!
