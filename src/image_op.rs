use vstd::prelude::*;

verus! {

/// Why a buffer-level operation refused its input.
#[derive(Debug, Clone, Copy, PartialEq, Eq, Structural)]
pub enum BufferError {
    /// The buffer's length is not a multiple of three, so it is not a sequence of RGB triples.
    LengthNotMultipleOfThree,
    /// Two buffers that must pair up byte for byte have different lengths.
    LengthMismatch,
}

/// The buffer `s` with every RGB triple replaced by `f` of that triple.
/// Meaningful when `s.len() % 3 == 0`.
pub open spec fn map_pixels(s: Seq<u8>, f: spec_fn(u8, u8, u8) -> (u8, u8, u8)) -> Seq<u8> {
    Seq::new(
        s.len(),
        |i: int|
            {
                let base = i - i % 3;
                let p = f(s[base], s[base + 1], s[base + 2]);
                if i % 3 == 0 {
                    p.0
                } else if i % 3 == 1 {
                    p.1
                } else {
                    p.2
                }
            },
    )
}

/// Luma with ITU-R BT.601 weights (0.299, 0.587, 0.114), fraction discarded.
pub open spec fn luma601(r: u8, g: u8, b: u8) -> int {
    (299 * r + 587 * g + 114 * b) / 1000
}

/// Luma with ITU-R BT.709 weights (0.2126, 0.7152, 0.0722), fraction discarded.
pub open spec fn luma709(r: u8, g: u8, b: u8) -> int {
    (2126 * r + 7152 * g + 722 * b) / 10000
}

pub open spec fn gray601_pixel(r: u8, g: u8, b: u8) -> (u8, u8, u8) {
    let y = luma601(r, g, b) as u8;
    (y, y, y)
}

pub open spec fn gray709_pixel(r: u8, g: u8, b: u8) -> (u8, u8, u8) {
    let y = luma709(r, g, b) as u8;
    (y, y, y)
}

/// `s` reduced to gray with BT.601 weights.
pub open spec fn grayscale601_of(s: Seq<u8>) -> Seq<u8> {
    map_pixels(s, |r: u8, g: u8, b: u8| gray601_pixel(r, g, b))
}

/// `s` reduced to gray with BT.709 weights.
pub open spec fn grayscale709_of(s: Seq<u8>) -> Seq<u8> {
    map_pixels(s, |r: u8, g: u8, b: u8| gray709_pixel(r, g, b))
}

/// Gray level of one pixel with BT.601 weights, as an RGB triple.
pub fn rgb_to_grayscale1(r: u8, g: u8, b: u8) -> (res: (u8, u8, u8))
    ensures
        res == gray601_pixel(r, g, b),
        res.0 == luma601(r, g, b),
{
    let y = ((299 * r as u32 + 587 * g as u32 + 114 * b as u32) / 1000) as u8;
    (y, y, y)
}

/// Gray level of one pixel with BT.709 weights, as an RGB triple.
pub fn rgb_to_grayscale2(r: u8, g: u8, b: u8) -> (res: (u8, u8, u8))
    ensures
        res == gray709_pixel(r, g, b),
        res.0 == luma709(r, g, b),
{
    let y = ((2126 * r as u32 + 7152 * g as u32 + 722 * b as u32) / 10000) as u8;
    (y, y, y)
}

/// Replaces every pixel of `buf` with its BT.601 gray level, in place.
/// A buffer whose length is not a multiple of three is refused and left as it is.
pub fn rgb_buffer_to_grayscale1(buf: &mut Vec<u8>) -> (res: Result<(), BufferError>)
    ensures
        res is Ok <==> old(buf)@.len() % 3 == 0,
        res is Ok ==> final(buf)@ == grayscale601_of(old(buf)@),
        res is Err ==> res == Err::<(), BufferError>(BufferError::LengthNotMultipleOfThree)
            && final(buf)@ == old(buf)@,
{
    if buf.len() % 3 != 0 {
        return Err(BufferError::LengthNotMultipleOfThree);
    }
    let ghost orig = buf@;
    let n = buf.len();
    let mut i: usize = 0;
    while i < n
        invariant
            n == buf@.len(),
            n == orig.len(),
            n % 3 == 0,
            i % 3 == 0,
            i <= n,
            forall|j: int| 0 <= j < i ==> buf@[j] == grayscale601_of(orig)[j],
            forall|j: int| i <= j < n ==> buf@[j] == orig[j],
        decreases n - i,
    {
        let (y, _, _) = rgb_to_grayscale1(buf[i], buf[i + 1], buf[i + 2]);
        buf.set(i, y);
        buf.set(i + 1, y);
        buf.set(i + 2, y);
        i = i + 3;
    }
    assert(buf@ =~= grayscale601_of(orig));
    Ok(())
}

/// Replaces every pixel of `buf` with its BT.709 gray level, in place.
/// A buffer whose length is not a multiple of three is refused and left as it is.
pub fn rgb_buffer_to_grayscale2(buf: &mut Vec<u8>) -> (res: Result<(), BufferError>)
    ensures
        res is Ok <==> old(buf)@.len() % 3 == 0,
        res is Ok ==> final(buf)@ == grayscale709_of(old(buf)@),
        res is Err ==> res == Err::<(), BufferError>(BufferError::LengthNotMultipleOfThree)
            && final(buf)@ == old(buf)@,
{
    if buf.len() % 3 != 0 {
        return Err(BufferError::LengthNotMultipleOfThree);
    }
    let ghost orig = buf@;
    let n = buf.len();
    let mut i: usize = 0;
    while i < n
        invariant
            n == buf@.len(),
            n == orig.len(),
            n % 3 == 0,
            i % 3 == 0,
            i <= n,
            forall|j: int| 0 <= j < i ==> buf@[j] == grayscale709_of(orig)[j],
            forall|j: int| i <= j < n ==> buf@[j] == orig[j],
        decreases n - i,
    {
        let (y, _, _) = rgb_to_grayscale2(buf[i], buf[i + 1], buf[i + 2]);
        buf.set(i, y);
        buf.set(i + 1, y);
        buf.set(i + 2, y);
        i = i + 3;
    }
    assert(buf@ =~= grayscale709_of(orig));
    Ok(())
}

/// `s` with every byte whose position within its triple is not `channel` set to zero
/// (0 = red, 1 = green, 2 = blue).
pub open spec fn isolate_channel(s: Seq<u8>, channel: int) -> Seq<u8> {
    Seq::new(s.len(), |i: int| if i % 3 == channel { s[i] } else { 0u8 })
}

/// Zeroes, in place, the two channels of every pixel other than `channel`.
fn isolate_channel_in_place(buf: &mut Vec<u8>, channel: usize) -> (res: Result<(), BufferError>)
    requires
        channel < 3,
    ensures
        res is Ok <==> old(buf)@.len() % 3 == 0,
        res is Ok ==> final(buf)@ == isolate_channel(old(buf)@, channel as int),
        res is Err ==> res == Err::<(), BufferError>(BufferError::LengthNotMultipleOfThree)
            && final(buf)@ == old(buf)@,
{
    if buf.len() % 3 != 0 {
        return Err(BufferError::LengthNotMultipleOfThree);
    }
    let ghost orig = buf@;
    let n = buf.len();
    let mut i: usize = 0;
    while i < n
        invariant
            channel < 3,
            n == buf@.len(),
            n == orig.len(),
            i <= n,
            forall|j: int| 0 <= j < i ==> buf@[j] == isolate_channel(orig, channel as int)[j],
            forall|j: int| i <= j < n ==> buf@[j] == orig[j],
        decreases n - i,
    {
        if i % 3 != channel {
            buf.set(i, 0);
        }
        i = i + 1;
    }
    assert(buf@ =~= isolate_channel(orig, channel as int));
    Ok(())
}

/// Keeps only the red channel of every pixel: green and blue become zero.
pub fn rgb_buffer_to_red_channel(buf: &mut Vec<u8>) -> (res: Result<(), BufferError>)
    ensures
        res is Ok <==> old(buf)@.len() % 3 == 0,
        res is Ok ==> final(buf)@ == isolate_channel(old(buf)@, 0),
        res is Err ==> res == Err::<(), BufferError>(BufferError::LengthNotMultipleOfThree)
            && final(buf)@ == old(buf)@,
{
    isolate_channel_in_place(buf, 0)
}

/// Keeps only the green channel of every pixel: red and blue become zero.
pub fn rgb_buffer_to_green_channel(buf: &mut Vec<u8>) -> (res: Result<(), BufferError>)
    ensures
        res is Ok <==> old(buf)@.len() % 3 == 0,
        res is Ok ==> final(buf)@ == isolate_channel(old(buf)@, 1),
        res is Err ==> res == Err::<(), BufferError>(BufferError::LengthNotMultipleOfThree)
            && final(buf)@ == old(buf)@,
{
    isolate_channel_in_place(buf, 1)
}

/// Keeps only the blue channel of every pixel: red and green become zero.
pub fn rgb_buffer_to_blue_channel(buf: &mut Vec<u8>) -> (res: Result<(), BufferError>)
    ensures
        res is Ok <==> old(buf)@.len() % 3 == 0,
        res is Ok ==> final(buf)@ == isolate_channel(old(buf)@, 2),
        res is Err ==> res == Err::<(), BufferError>(BufferError::LengthNotMultipleOfThree)
            && final(buf)@ == old(buf)@,
{
    isolate_channel_in_place(buf, 2)
}

/// `|a - b|` of two bytes.
pub open spec fn abs_diff(a: u8, b: u8) -> u8 {
    if a >= b {
        (a - b) as u8
    } else {
        (b - a) as u8
    }
}

/// Byte-wise absolute difference of two buffers of equal length.
pub open spec fn difference_of(a: Seq<u8>, b: Seq<u8>) -> Seq<u8> {
    Seq::new(a.len(), |i: int| abs_diff(a[i], b[i]))
}

/// Byte-wise `255 - |a - b|` of two buffers of equal length.
pub open spec fn difference_neg_of(a: Seq<u8>, b: Seq<u8>) -> Seq<u8> {
    Seq::new(a.len(), |i: int| (255 - abs_diff(a[i], b[i])) as u8)
}

/// Which error, if any, a two-buffer operation reports for inputs of these lengths:
/// a length mismatch first, then a length that is not a multiple of three.
pub open spec fn pair_error(len1: nat, len2: nat) -> Option<BufferError> {
    if len1 != len2 {
        Some(BufferError::LengthMismatch)
    } else if len1 % 3 != 0 {
        Some(BufferError::LengthNotMultipleOfThree)
    } else {
        None
    }
}

fn check_pair(buf1: &[u8], buf2: &[u8]) -> (res: Result<(), BufferError>)
    ensures
        res is Ok <==> pair_error(buf1@.len(), buf2@.len()) is None,
        res is Err ==> Some(res->Err_0) == pair_error(buf1@.len(), buf2@.len()),
{
    if buf1.len() != buf2.len() {
        Err(BufferError::LengthMismatch)
    } else if buf1.len() % 3 != 0 {
        Err(BufferError::LengthNotMultipleOfThree)
    } else {
        Ok(())
    }
}

/// A new buffer holding `|buf1[i] - buf2[i]|` at every position.
/// Buffers of different lengths, or of a length that is not a multiple of three, are refused.
pub fn compute_difference(buf1: &[u8], buf2: &[u8]) -> (res: Result<Vec<u8>, BufferError>)
    ensures
        res is Ok <==> pair_error(buf1@.len(), buf2@.len()) is None,
        res is Ok ==> res->Ok_0@ == difference_of(buf1@, buf2@),
        res is Err ==> Some(res->Err_0) == pair_error(buf1@.len(), buf2@.len()),
{
    check_pair(buf1, buf2)?;
    let n = buf1.len();
    let mut out: Vec<u8> = Vec::with_capacity(n);
    let mut i: usize = 0;
    while i < n
        invariant
            n == buf1@.len(),
            n == buf2@.len(),
            i <= n,
            out@.len() == i,
            forall|j: int| 0 <= j < i ==> out@[j] == abs_diff(buf1@[j], buf2@[j]),
        decreases n - i,
    {
        let a = buf1[i];
        let b = buf2[i];
        let d = if a >= b { a - b } else { b - a };
        out.push(d);
        i = i + 1;
    }
    assert(out@ =~= difference_of(buf1@, buf2@));
    Ok(out)
}

/// A new buffer holding `255 - |buf1[i] - buf2[i]|` at every position, so that equal
/// bytes show bright. Refuses the same inputs as `compute_difference`.
pub fn compute_difference_neg(buf1: &[u8], buf2: &[u8]) -> (res: Result<Vec<u8>, BufferError>)
    ensures
        res is Ok <==> pair_error(buf1@.len(), buf2@.len()) is None,
        res is Ok ==> res->Ok_0@ == difference_neg_of(buf1@, buf2@),
        res is Err ==> Some(res->Err_0) == pair_error(buf1@.len(), buf2@.len()),
{
    check_pair(buf1, buf2)?;
    let n = buf1.len();
    let mut out: Vec<u8> = Vec::with_capacity(n);
    let mut i: usize = 0;
    while i < n
        invariant
            n == buf1@.len(),
            n == buf2@.len(),
            i <= n,
            out@.len() == i,
            forall|j: int| 0 <= j < i ==> out@[j] == (255 - abs_diff(buf1@[j], buf2@[j])) as u8,
        decreases n - i,
    {
        let a = buf1[i];
        let b = buf2[i];
        let d = if a >= b { a - b } else { b - a };
        out.push(255 - d);
        i = i + 1;
    }
    assert(out@ =~= difference_neg_of(buf1@, buf2@));
    Ok(out)
}

/// `n / d` rounded to the nearest integer, halves rounded up (for `n >= 0`, `d > 0`).
pub open spec fn round_div(n: int, d: int) -> int {
    (2 * n + d) / (2 * d)
}

pub open spec fn max3(r: u8, g: u8, b: u8) -> int {
    if r >= g && r >= b {
        r as int
    } else if g >= b {
        g as int
    } else {
        b as int
    }
}

pub open spec fn min3(r: u8, g: u8, b: u8) -> int {
    if r <= g && r <= b {
        r as int
    } else if g <= b {
        g as int
    } else {
        b as int
    }
}

/// The hue in degrees times `max - min`: the hexagonal-sector formula, whose sector
/// offset (0, 120 or 240) is chosen by the channel that holds the maximum (red first,
/// then green), with 360 added in the red sector when green is below blue.
pub open spec fn hue_numerator(r: u8, g: u8, b: u8) -> int {
    let d = max3(r, g, b) - min3(r, g, b);
    if r == max3(r, g, b) {
        if g >= b {
            60 * (g - b)
        } else {
            60 * (g - b) + 360 * d
        }
    } else if g == max3(r, g, b) {
        60 * (b - r) + 120 * d
    } else {
        60 * (r - g) + 240 * d
    }
}

/// Hue in whole degrees in `[0, 360)`; 0 for a gray pixel.
pub open spec fn hue_of(r: u8, g: u8, b: u8) -> int {
    let d = max3(r, g, b) - min3(r, g, b);
    if d == 0 {
        0
    } else {
        round_div(hue_numerator(r, g, b), d) % 360
    }
}

/// Saturation in whole percent; 0 for black.
pub open spec fn saturation_of(r: u8, g: u8, b: u8) -> int {
    if max3(r, g, b) == 0 {
        0
    } else {
        round_div(100 * (max3(r, g, b) - min3(r, g, b)), max3(r, g, b))
    }
}

/// Value (brightness) in whole percent.
pub open spec fn value_of(r: u8, g: u8, b: u8) -> int {
    round_div(100 * max3(r, g, b), 255)
}

proof fn lemma_round_div_le(n: int, d: int, k: int) by (nonlinear_arith)
    requires
        0 <= n <= k * d,
        d > 0,
        k >= 0,
    ensures
        0 <= round_div(n, d) <= k,
{
}

/// Converts an RGB pixel to hue (degrees), saturation and value (percent), each rounded
/// to the nearest integer.
pub fn rgb_to_hsv(r: u8, g: u8, b: u8) -> (res: (u16, u8, u8))
    ensures
        res.0 == hue_of(r, g, b),
        res.1 == saturation_of(r, g, b),
        res.2 == value_of(r, g, b),
        res.0 < 360,
        res.1 <= 100,
        res.2 <= 100,
{
    let r32 = r as u32;
    let g32 = g as u32;
    let b32 = b as u32;
    let mx: u32 = if r32 >= g32 && r32 >= b32 {
        r32
    } else if g32 >= b32 {
        g32
    } else {
        b32
    };
    let mn: u32 = if r32 <= g32 && r32 <= b32 {
        r32
    } else if g32 <= b32 {
        g32
    } else {
        b32
    };
    let d = mx - mn;
    let v = ((200 * mx + 255) / 510) as u8;
    let s: u8 = if mx == 0 {
        0
    } else {
        proof {
            lemma_round_div_le(100 * d as int, mx as int, 100);
        }
        ((200 * d + mx) / (2 * mx)) as u8
    };
    let h: u16 = if d == 0 {
        0
    } else {
        let num: u32 = if r32 == mx {
            if g32 >= b32 {
                60 * (g32 - b32)
            } else {
                360 * d - 60 * (b32 - g32)
            }
        } else if g32 == mx {
            120 * d + 60 * b32 - 60 * r32
        } else {
            240 * d + 60 * r32 - 60 * g32
        };
        assert(num == hue_numerator(r, g, b));
        proof {
            lemma_round_div_le(num as int, d as int, 360);
        }
        let q = (2 * num + d) / (2 * d);
        if q >= 360 {
            (q - 360) as u16
        } else {
            q as u16
        }
    };
    (h, s, v)
}

/// The RGB channels of hue `h` (degrees), saturation `s` and value `v` (percent): the
/// hue picks one of six 60-degree sectors, and each channel is rounded to the nearest
/// integer.
#[verifier::opaque]
pub open spec fn hsv_pixel(h: int, s: int, v: int) -> (int, int, int) {
    let sector = (h / 60) % 6;
    let f = h % 60;
    let vv = round_div(255 * v, 100);
    let p = round_div(255 * v * (100 - s), 10000);
    let q = round_div(255 * v * (6000 - f * s), 600000);
    let t = round_div(255 * v * (6000 - (60 - f) * s), 600000);
    if sector == 0 {
        (vv, t, p)
    } else if sector == 1 {
        (q, vv, p)
    } else if sector == 2 {
        (p, vv, t)
    } else if sector == 3 {
        (p, q, vv)
    } else if sector == 4 {
        (t, p, vv)
    } else {
        (vv, p, q)
    }
}

proof fn lemma_hsv_products(v: int, s: int, f: int) by (nonlinear_arith)
    requires
        0 <= v <= 100,
        0 <= s <= 100,
        0 <= f < 60,
    ensures
        0 <= f * s <= 5900,
        0 <= (60 - f) * s <= 6000,
        0 <= 255 * v * (100 - s) <= 2550000,
        0 <= 255 * v * (6000 - f * s) <= 153000000,
        0 <= 255 * v * (6000 - (60 - f) * s) <= 153000000,
{
}

/// Converts hue `h` (degrees), saturation `s` and value `v` (percent) to an RGB pixel.
pub fn hsv_to_rgb(h: u16, s: u8, v: u8) -> (res: (u8, u8, u8))
    requires
        s <= 100,
        v <= 100,
    ensures
        res.0 == hsv_pixel(h as int, s as int, v as int).0,
        res.1 == hsv_pixel(h as int, s as int, v as int).1,
        res.2 == hsv_pixel(h as int, s as int, v as int).2,
{
    let sector = (h / 60) % 6;
    let f = (h % 60) as u64;
    let s64 = s as u64;
    let v64 = v as u64;
    proof {
        lemma_hsv_products(v as int, s as int, f as int);
        reveal(hsv_pixel);
    }
    let vv = ((510 * v64 + 100) / 200) as u8;
    let p = ((2 * (255 * v64 * (100 - s64)) + 10000) / 20000) as u8;
    let q = ((2 * (255 * v64 * (6000 - f * s64)) + 600000) / 1200000) as u8;
    let t = ((2 * (255 * v64 * (6000 - (60 - f) * s64)) + 600000) / 1200000) as u8;
    if sector == 0 {
        (vv, t, p)
    } else if sector == 1 {
        (q, vv, p)
    } else if sector == 2 {
        (p, vv, t)
    } else if sector == 3 {
        (p, q, vv)
    } else if sector == 4 {
        (t, p, vv)
    } else {
        assert(sector == 5);
        (vv, p, q)
    }
}

/// `x + dx`, capped at 100.
pub open spec fn add_capped(x: int, dx: int) -> int {
    if x + dx > 100 {
        100
    } else {
        x + dx
    }
}

/// Adds `dh` degrees to the hue, wrapping modulo 360, and `ds`, `dv` to saturation and
/// value, each capped at 100.
pub fn shift_hsv(h: u16, s: u8, v: u8, dh: u16, ds: u8, dv: u8) -> (res: (u16, u8, u8))
    ensures
        res.0 == (h + dh) % 360,
        res.1 == add_capped(s as int, ds as int),
        res.2 == add_capped(v as int, dv as int),
        res.1 <= 100,
        res.2 <= 100,
{
    let h2 = ((h as u32 + dh as u32) % 360) as u16;
    let s_sum = s as u16 + ds as u16;
    let v_sum = v as u16 + dv as u16;
    let s2: u8 = if s_sum > 100 {
        100
    } else {
        s_sum as u8
    };
    let v2: u8 = if v_sum > 100 {
        100
    } else {
        v_sum as u8
    };
    (h2, s2, v2)
}

/// One pixel moved through HSV: converted, shifted by `(dh, ds, dv)` and converted back.
#[verifier::opaque]
pub open spec fn hsv_adjusted_pixel(r: u8, g: u8, b: u8, dh: u16, ds: u8, dv: u8) -> (
    u8,
    u8,
    u8,
) {
    let c = hsv_pixel(
        (hue_of(r, g, b) + dh) % 360,
        add_capped(saturation_of(r, g, b), ds as int),
        add_capped(value_of(r, g, b), dv as int),
    );
    (c.0 as u8, c.1 as u8, c.2 as u8)
}

/// `s` with every pixel moved through HSV by `(dh, ds, dv)`.
pub open spec fn hsv_adjusted_of(s: Seq<u8>, dh: u16, ds: u8, dv: u8) -> Seq<u8> {
    map_pixels(s, |r: u8, g: u8, b: u8| hsv_adjusted_pixel(r, g, b, dh, ds, dv))
}

/// Adds `h_add` degrees of hue (wrapping modulo 360) and `s_add`, `v_add` percent of
/// saturation and value (capped at 100) to every pixel of `buf`, in place.
/// A buffer whose length is not a multiple of three is refused and left as it is.
pub fn add_hsv_to_buffer(buf: &mut Vec<u8>, h_add: u16, s_add: u8, v_add: u8) -> (res: Result<
    (),
    BufferError,
>)
    ensures
        res is Ok <==> old(buf)@.len() % 3 == 0,
        res is Ok ==> final(buf)@ == hsv_adjusted_of(old(buf)@, h_add, s_add, v_add),
        res is Err ==> res == Err::<(), BufferError>(BufferError::LengthNotMultipleOfThree)
            && final(buf)@ == old(buf)@,
{
    if buf.len() % 3 != 0 {
        return Err(BufferError::LengthNotMultipleOfThree);
    }
    let ghost orig = buf@;
    let n = buf.len();
    let mut i: usize = 0;
    while i < n
        invariant
            n == buf@.len(),
            n == orig.len(),
            n % 3 == 0,
            i % 3 == 0,
            i <= n,
            forall|j: int|
                0 <= j < i ==> buf@[j] == hsv_adjusted_of(orig, h_add, s_add, v_add)[j],
            forall|j: int| i <= j < n ==> buf@[j] == orig[j],
        decreases n - i,
    {
        let (h, s, v) = rgb_to_hsv(buf[i], buf[i + 1], buf[i + 2]);
        let (h2, s2, v2) = shift_hsv(h, s, v, h_add, s_add, v_add);
        let (r2, g2, b2) = hsv_to_rgb(h2, s2, v2);
        assert(hsv_adjusted_pixel(orig[i as int], orig[i + 1], orig[i + 2], h_add, s_add, v_add)
            == (r2, g2, b2)) by {
            reveal(hsv_adjusted_pixel);
        }
        buf.set(i, r2);
        buf.set(i + 1, g2);
        buf.set(i + 2, b2);
        i = i + 3;
    }
    assert(buf@ =~= hsv_adjusted_of(orig, h_add, s_add, v_add));
    Ok(())
}

/// Every channel that `hsv_to_rgb` computes from a saturation and value in `[0, 100]`
/// lies in `[0, 255]`.
pub proof fn lemma_hsv_pixel_in_range(h: int, s: int, v: int)
    requires
        h >= 0,
        0 <= s <= 100,
        0 <= v <= 100,
    ensures
        0 <= hsv_pixel(h, s, v).0 <= 255,
        0 <= hsv_pixel(h, s, v).1 <= 255,
        0 <= hsv_pixel(h, s, v).2 <= 255,
{
    reveal(hsv_pixel);
    lemma_hsv_products(v, s, h % 60);
}

/// Converting a pixel to HSV gives a hue in `[0, 360)` and saturation and value in
/// `[0, 100]`, and converting those back gives channels in `[0, 255]`.
pub proof fn lemma_hsv_round_trip_in_range(r: u8, g: u8, b: u8)
    ensures
        0 <= hue_of(r, g, b) < 360,
        0 <= saturation_of(r, g, b) <= 100,
        0 <= value_of(r, g, b) <= 100,
        0 <= hsv_pixel(hue_of(r, g, b), saturation_of(r, g, b), value_of(r, g, b)).0 <= 255,
        0 <= hsv_pixel(hue_of(r, g, b), saturation_of(r, g, b), value_of(r, g, b)).1 <= 255,
        0 <= hsv_pixel(hue_of(r, g, b), saturation_of(r, g, b), value_of(r, g, b)).2 <= 255,
{
    let d = max3(r, g, b) - min3(r, g, b);
    if d != 0 {
        lemma_round_div_le(hue_numerator(r, g, b), d, 360);
    }
    if max3(r, g, b) != 0 {
        lemma_round_div_le(100 * d, max3(r, g, b), 100);
    }
    lemma_round_div_le(100 * max3(r, g, b), 255, 100);
    lemma_hsv_pixel_in_range(hue_of(r, g, b), saturation_of(r, g, b), value_of(r, g, b));
}

/// Both gray reductions leave every pixel with equal red, green and blue.
pub proof fn lemma_grayscale_pixels_are_gray(s: Seq<u8>)
    requires
        s.len() % 3 == 0,
    ensures
        forall|k: int|
            0 <= k < s.len() / 3 ==> #[trigger] grayscale601_of(s)[3 * k] == grayscale601_of(s)[3 * k
                + 1] && grayscale601_of(s)[3 * k + 1] == grayscale601_of(s)[3 * k + 2],
        forall|k: int|
            0 <= k < s.len() / 3 ==> #[trigger] grayscale709_of(s)[3 * k] == grayscale709_of(s)[3 * k
                + 1] && grayscale709_of(s)[3 * k + 1] == grayscale709_of(s)[3 * k + 2],
{
}

/// Isolating a channel twice gives the same buffer as isolating it once.
pub proof fn lemma_isolation_idempotent(s: Seq<u8>, channel: int)
    requires
        0 <= channel < 3,
    ensures
        isolate_channel(isolate_channel(s, channel), channel) == isolate_channel(s, channel),
{
    assert(isolate_channel(isolate_channel(s, channel), channel) =~= isolate_channel(s, channel));
}

/// The difference of a buffer with itself is all zero.
pub proof fn lemma_difference_with_self_is_zero(a: Seq<u8>)
    ensures
        difference_of(a, a).len() == a.len(),
        forall|i: int| 0 <= i < a.len() ==> #[trigger] difference_of(a, a)[i] == 0,
{
}

/// The difference does not depend on the order of its arguments.
pub proof fn lemma_difference_symmetric(a: Seq<u8>, b: Seq<u8>)
    requires
        a.len() == b.len(),
    ensures
        difference_of(a, b) == difference_of(b, a),
{
    assert(difference_of(a, b) =~= difference_of(b, a));
}

} // verus!
