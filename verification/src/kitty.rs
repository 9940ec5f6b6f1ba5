use vstd::prelude::*;
use vstd::string::StringSliceAdditionalSpecFns;
use vstd::utf8::{encode_utf8, is_ascii_chars, is_ascii_chars_encode_utf8};

use base64::Engine;

use crate::canvas::{Canvas, DirtyRegion, Rgba, region_in_bounds, lemma_grid_bound, lemma_u16_product};
use crate::text::{decimal, lit, push_decimal, push_slice, push_str};

verus! {

pub const DEFAULT_CHUNK_SIZE: usize = 4096;

/// The identifier of one image held by the terminal.
#[derive(Clone, Copy, Debug, PartialEq, Eq, Structural)]
pub struct KittyImageId(u32);

impl KittyImageId {
    pub closed spec fn spec_value(self) -> u32 {
        self.0
    }

    pub fn new(value: u32) -> (id: KittyImageId)
        ensures
            id.spec_value() == value,
    {
        KittyImageId(value)
    }

    pub fn value(self) -> (value: u32)
        ensures
            value == self.spec_value(),
    {
        self.0
    }

    /// Two identifiers are equal exactly when their values are.
    pub proof fn lemma_value_determines(self, other: KittyImageId)
        ensures
            (self == other) <==> (self.spec_value() == other.spec_value()),
    {
    }
}

/// The terminal cell rectangle an image is scaled into; both sides are at least one cell.
#[derive(Clone, Copy, Debug, PartialEq, Eq, Structural)]
pub struct KittyPlacement {
    pub columns: u16,
    pub rows: u16,
}

impl KittyPlacement {
    /// Zero columns or rows are raised to one.
    pub fn new(columns: u16, rows: u16) -> (placement: KittyPlacement)
        ensures
            placement.columns == if columns == 0 { 1 } else { columns },
            placement.rows == if rows == 0 { 1 } else { rows },
    {
        let columns = if columns == 0 { 1 } else { columns };
        let rows = if rows == 0 { 1 } else { rows };
        KittyPlacement { columns, rows }
    }
}

/// The bytes of `pixels` in R, G, B, A order.
pub open spec fn rgba_bytes(pixels: Seq<Rgba>) -> Seq<u8>
    decreases pixels.len(),
{
    if pixels.len() == 0 {
        Seq::empty()
    } else {
        let last = pixels.last();
        rgba_bytes(pixels.drop_last()) + seq![last.r, last.g, last.b, last.a]
    }
}

/// The RGBA bytes of the first `rows` rows of `region` in a row-major pixel sequence
/// `width` pixels wide.
pub open spec fn region_rgba_bytes(
    pixels: Seq<Rgba>,
    width: int,
    region: DirtyRegion,
    rows: int,
) -> Seq<u8>
    decreases rows,
{
    if rows <= 0 {
        Seq::empty()
    } else {
        let start = (region.y + rows - 1) * width + region.x;
        region_rgba_bytes(pixels, width, region, rows - 1) + rgba_bytes(
            pixels.subrange(start, start + region.width),
        )
    }
}

/// The base64 alphabet symbol of a 6-bit value (RFC 4648, standard alphabet).
pub open spec fn base64_symbol(value: int) -> u8 {
    if value < 26 {
        (65 + value) as u8
    } else if value < 52 {
        (97 + value - 26) as u8
    } else if value < 62 {
        (48 + value - 52) as u8
    } else if value == 62 {
        43u8
    } else {
        47u8
    }
}

/// Standard base64 with `=` padding (RFC 4648, section 4).
pub open spec fn base64_encode(data: Seq<u8>) -> Seq<u8>
    decreases data.len(),
{
    if data.len() == 0 {
        Seq::empty()
    } else if data.len() == 1 {
        seq![
            base64_symbol((data[0] as int) / 4),
            base64_symbol(((data[0] as int) % 4) * 16),
            61u8,
            61u8,
        ]
    } else if data.len() == 2 {
        seq![
            base64_symbol((data[0] as int) / 4),
            base64_symbol(((data[0] as int) % 4) * 16 + (data[1] as int) / 16),
            base64_symbol(((data[1] as int) % 16) * 4),
            61u8,
        ]
    } else {
        seq![
            base64_symbol((data[0] as int) / 4),
            base64_symbol(((data[0] as int) % 4) * 16 + (data[1] as int) / 16),
            base64_symbol(((data[1] as int) % 16) * 4 + (data[2] as int) / 64),
            base64_symbol((data[2] as int) % 64),
        ] + base64_encode(data.subrange(3, data.len() as int))
    }
}

pub open spec fn ascii_chars(bytes: Seq<u8>) -> Seq<char> {
    bytes.map_values(|b: u8| b as char)
}

proof fn lemma_base64_symbol_ascii(value: int)
    requires
        0 <= value < 64,
    ensures
        base64_symbol(value) < 128,
{
}

proof fn lemma_base64_ascii(data: Seq<u8>)
    ensures
        forall|i: int|
            0 <= i < base64_encode(data).len() ==> #[trigger] base64_encode(data)[i] < 128,
    decreases data.len(),
{
    if data.len() == 0 {
        return;
    }
    let b0 = data[0] as int;
    lemma_base64_symbol_ascii(b0 / 4);
    if data.len() == 1 {
        lemma_base64_symbol_ascii((b0 % 4) * 16);
        return;
    }
    let b1 = data[1] as int;
    lemma_base64_symbol_ascii((b0 % 4) * 16 + b1 / 16);
    if data.len() == 2 {
        lemma_base64_symbol_ascii((b1 % 16) * 4);
        return;
    }
    let b2 = data[2] as int;
    lemma_base64_symbol_ascii((b1 % 16) * 4 + b2 / 64);
    lemma_base64_symbol_ascii(b2 % 64);
    let rest = data.subrange(3, data.len() as int);
    lemma_base64_ascii(rest);
    let head = seq![
        base64_symbol(b0 / 4),
        base64_symbol((b0 % 4) * 16 + b1 / 16),
        base64_symbol((b1 % 16) * 4 + b2 / 64),
        base64_symbol(b2 % 64),
    ];
    assert(base64_encode(data) == head + base64_encode(rest));
    assert forall|i: int| 0 <= i < base64_encode(data).len() implies #[trigger] base64_encode(
        data,
    )[i] < 128 by {
        if i >= 4 {
            assert(base64_encode(data)[i] == base64_encode(rest)[i - 4]);
        }
    }
}

/// Appends the standard base64 encoding of `input` to `output`: a call of `encode_string`
/// on the `STANDARD` engine of the `base64` crate, which pads with `=`.
#[verifier::external_body]
fn base64_encode_into(input: &[u8], output: &mut String)
    ensures
        final(output)@ == old(output)@ + ascii_chars(base64_encode(input@)),
{
    base64::engine::general_purpose::STANDARD.encode_string(input, output);
}

/// Empties `text`: a call of `String::clear`.
#[verifier::external_body]
fn clear_string(text: &mut String)
    ensures
        final(text)@ == Seq::<char>::empty(),
{
    text.clear();
}

/// The allocated capacity of `bytes`: a call of `Vec::capacity`. The allocator decides
/// it; `Vec` guarantees that it is never below the length.
#[verifier::external_body]
fn vec_capacity(bytes: &Vec<u8>) -> (capacity: usize)
    ensures
        capacity >= bytes@.len(),
{
    bytes.capacity()
}

/// The allocated capacity of `text` in bytes: a call of `String::capacity`. The allocator
/// decides it; it is never below the length in bytes, which is at least the number of
/// characters.
#[verifier::external_body]
fn string_capacity(text: &String) -> (capacity: usize)
    ensures
        capacity >= text@.len(),
{
    text.capacity()
}

/// `bytes` followed by the framing of one Kitty graphics chunk sequence.
///
/// The payload is cut into pieces of `chunk_size` bytes. The first piece is preceded by
/// `prefix`, `,m=<more>;` and later pieces by `ESC _G m=<more>;`, where `<more>` is 1 while
/// payload remains after the piece; every piece is followed by `ESC \`.
#[verifier::opaque]
pub open spec fn kitty_chunks(prefix: Seq<u8>, payload: Seq<u8>, chunk_size: int, first: bool) -> Seq<
    u8,
>
    decreases payload.len(),
{
    if payload.len() == 0 || chunk_size <= 0 {
        Seq::empty()
    } else {
        let taken = if chunk_size < payload.len() { chunk_size } else { payload.len() as int };
        let rest = payload.subrange(taken, payload.len() as int);
        let more: nat = if rest.len() > 0 { 1 } else { 0 };
        let header = if first {
            prefix + lit(",m=") + decimal(more) + lit(";")
        } else {
            lit("\x1b_Gm=") + decimal(more) + lit(";")
        };
        header + payload.subrange(0, taken) + lit("\x1b\\") + kitty_chunks(
            prefix,
            rest,
            chunk_size,
            false,
        )
    }
}

pub open spec fn quiet_flag(quiet: bool) -> Seq<u8> {
    if quiet {
        lit(",q=2")
    } else {
        Seq::empty()
    }
}

/// The control data that opens a full-image transmission (`a=T`).
pub open spec fn transmit_prefix(
    image_id: u32,
    width: u16,
    height: u16,
    placement: Option<KittyPlacement>,
    quiet: bool,
) -> Seq<u8> {
    lit("\x1b_Ga=T") + quiet_flag(quiet) + lit(",f=32,i=") + decimal(image_id as nat) + lit(",s=")
        + decimal(width as nat) + lit(",v=") + decimal(height as nat) + match placement {
        Some(p) => lit(",c=") + decimal(p.columns as nat) + lit(",r=") + decimal(p.rows as nat)
            + lit(",C=1"),
        None => Seq::empty(),
    }
}

/// The control data that opens an edit of the root frame of a shown image (`a=f`). Edits
/// always ask the terminal not to answer (`q=2`), whatever the encoder's setting.
pub open spec fn frame_prefix(image_id: u32, region: DirtyRegion) -> Seq<u8> {
    lit("\x1b_Ga=f,q=2,f=32,i=") + decimal(image_id as nat) + lit(
        ",r=1,x=",
    ) + decimal(region.x as nat) + lit(",y=") + decimal(region.y as nat) + lit(",s=") + decimal(
        region.width as nat,
    ) + lit(",v=") + decimal(region.height as nat) + lit(",X=1")
}

/// The command that deletes an image and frees its data (`a=d,d=i`).
pub open spec fn delete_command(image_id: u32, quiet: bool) -> Seq<u8> {
    lit("\x1b_Ga=d") + quiet_flag(quiet) + lit(",d=i,i=") + decimal(image_id as nat) + lit(
        ";\x1b\\",
    )
}


proof fn lemma_kitty_chunks_step(
    prefix: Seq<u8>,
    payload: Seq<u8>,
    chunk_size: int,
    first: bool,
    offset: int,
)
    requires
        chunk_size >= 1,
        0 <= offset < payload.len(),
    ensures
        ({
            let rest = payload.subrange(offset, payload.len() as int);
            let next = if chunk_size < rest.len() { offset + chunk_size } else { payload.len() as int };
            let more: nat = if next < payload.len() { 1 } else { 0 };
            let header = if first {
                prefix + lit(",m=") + decimal(more) + lit(";")
            } else {
                lit("\x1b_Gm=") + decimal(more) + lit(";")
            };
            kitty_chunks(prefix, rest, chunk_size, first) == header + payload.subrange(offset, next)
                + lit("\x1b\\") + kitty_chunks(
                prefix,
                payload.subrange(next, payload.len() as int),
                chunk_size,
                false,
            )
        }),
{
    reveal(kitty_chunks);
    let rest = payload.subrange(offset, payload.len() as int);
    let next = if chunk_size < rest.len() { offset + chunk_size } else { payload.len() as int };
    let taken = next - offset;
    assert(rest.subrange(0, taken) == payload.subrange(offset, next));
    assert(rest.subrange(taken, rest.len() as int) == payload.subrange(next, payload.len() as int));
}


proof fn lemma_ascii_payload(data: Seq<u8>)
    ensures
        is_ascii_chars(ascii_chars(base64_encode(data))),
        encode_utf8(ascii_chars(base64_encode(data))) == base64_encode(data),
{
    let encoded = base64_encode(data);
    let chars = ascii_chars(encoded);
    lemma_base64_ascii(data);
    assert forall|i: int| 0 <= i < chars.len() implies '\0' <= #[trigger] chars[i] <= '\u{7f}' by {
        assert(encoded[i] < 128);
    }
    is_ascii_chars_encode_utf8(chars);
    assert(encode_utf8(chars) =~= encoded);
}

/// `10^digits`.
pub open spec fn ten_pow(digits: nat) -> nat
    decreases digits,
{
    if digits == 0 {
        1
    } else {
        10 * ten_pow((digits - 1) as nat)
    }
}

/// A value below `10^digits` has at most `digits` decimal digits.
pub proof fn lemma_decimal_len(value: nat, digits: nat)
    requires
        digits >= 1,
        value < ten_pow(digits),
    ensures
        1 <= decimal(value).len() <= digits,
    decreases digits,
{
    if value >= 10 {
        assert(ten_pow(digits) == 10 * ten_pow((digits - 1) as nat));
        lemma_decimal_len(value / 10, (digits - 1) as nat);
    }
}

/// A 16-bit value has at most five decimal digits, a 32-bit one at most ten.
pub proof fn lemma_decimal_len_bounds(value: nat)
    ensures
        value <= u16::MAX ==> decimal(value).len() <= 5,
        value <= u32::MAX ==> decimal(value).len() <= 10,
{
    reveal_with_fuel(ten_pow, 11);
    if value <= u16::MAX {
        lemma_decimal_len(value, 5);
    }
    if value <= u32::MAX {
        lemma_decimal_len(value, 10);
    }
}

proof fn lemma_ascii_lit_len(s: &str)
    requires
        is_ascii_chars(s@),
    ensures
        lit(s).len() == s@.len(),
{
    is_ascii_chars_encode_utf8(s@);
}

/// The lengths of the literal pieces of the Kitty commands and of the cursor movement.
pub proof fn lemma_command_literal_lens()
    ensures
        lit(",m=").len() == 3,
        lit(";").len() == 1,
        lit("\x1b_Gm=").len() == 5,
        lit("\x1b\\").len() == 2,
        lit(",q=2").len() == 4,
        lit("\x1b_Ga=T").len() == 6,
        lit(",f=32,i=").len() == 8,
        lit(",s=").len() == 3,
        lit(",v=").len() == 3,
        lit(",c=").len() == 3,
        lit(",r=").len() == 3,
        lit(",C=1").len() == 4,
        lit("\x1b_Ga=f,q=2,f=32,i=").len() == 18,
        lit(",r=1,x=").len() == 7,
        lit(",y=").len() == 3,
        lit(",X=1").len() == 4,
        lit("\x1b_Ga=d").len() == 6,
        lit(",d=i,i=").len() == 7,
        lit(";\x1b\\").len() == 3,
        lit("\x1b[").len() == 2,
        lit("H").len() == 1,
{
    reveal_strlit(",m=");
    lemma_ascii_lit_len(",m=");
    reveal_strlit(";");
    lemma_ascii_lit_len(";");
    reveal_strlit("\x1b_Gm=");
    lemma_ascii_lit_len("\x1b_Gm=");
    reveal_strlit("\x1b\\");
    lemma_ascii_lit_len("\x1b\\");
    reveal_strlit(",q=2");
    lemma_ascii_lit_len(",q=2");
    reveal_strlit("\x1b_Ga=T");
    lemma_ascii_lit_len("\x1b_Ga=T");
    reveal_strlit(",f=32,i=");
    lemma_ascii_lit_len(",f=32,i=");
    reveal_strlit(",s=");
    lemma_ascii_lit_len(",s=");
    reveal_strlit(",v=");
    lemma_ascii_lit_len(",v=");
    reveal_strlit(",c=");
    lemma_ascii_lit_len(",c=");
    reveal_strlit(",r=");
    lemma_ascii_lit_len(",r=");
    reveal_strlit(",C=1");
    lemma_ascii_lit_len(",C=1");
    reveal_strlit("\x1b_Ga=f,q=2,f=32,i=");
    lemma_ascii_lit_len("\x1b_Ga=f,q=2,f=32,i=");
    reveal_strlit(",r=1,x=");
    lemma_ascii_lit_len(",r=1,x=");
    reveal_strlit(",y=");
    lemma_ascii_lit_len(",y=");
    reveal_strlit(",X=1");
    lemma_ascii_lit_len(",X=1");
    reveal_strlit("\x1b_Ga=d");
    lemma_ascii_lit_len("\x1b_Ga=d");
    reveal_strlit(",d=i,i=");
    lemma_ascii_lit_len(",d=i,i=");
    reveal_strlit(";\x1b\\");
    lemma_ascii_lit_len(";\x1b\\");
    reveal_strlit("\x1b[");
    lemma_ascii_lit_len("\x1b[");
    reveal_strlit("H");
    lemma_ascii_lit_len("H");
}

/// The header of a quiet, placed transmission is at most 64 bytes.
pub proof fn lemma_transmit_prefix_len(image_id: u32, width: u16, height: u16, columns: u16, rows: u16)
    ensures
        transmit_prefix(
            image_id,
            width,
            height,
            Some(KittyPlacement { columns, rows }),
            true,
        ).len() <= 64,
{
    lemma_command_literal_lens();
    lemma_decimal_len_bounds(image_id as nat);
    lemma_decimal_len_bounds(width as nat);
    lemma_decimal_len_bounds(height as nat);
    lemma_decimal_len_bounds(columns as nat);
    lemma_decimal_len_bounds(rows as nat);
}

/// The header of a region edit is at most 68 bytes.
pub proof fn lemma_frame_prefix_len(image_id: u32, region: DirtyRegion)
    ensures
        frame_prefix(image_id, region).len() <= 68,
{
    lemma_command_literal_lens();
    lemma_decimal_len_bounds(image_id as nat);
    lemma_decimal_len_bounds(region.x as nat);
    lemma_decimal_len_bounds(region.y as nat);
    lemma_decimal_len_bounds(region.width as nat);
    lemma_decimal_len_bounds(region.height as nat);
}

/// A quiet deletion is at most 30 bytes.
pub proof fn lemma_delete_command_len(image_id: u32)
    ensures
        delete_command(image_id, true).len() <= 30,
{
    lemma_command_literal_lens();
    lemma_decimal_len_bounds(image_id as nat);
}

/// Four bytes per pixel.
pub proof fn lemma_rgba_bytes_len(pixels: Seq<Rgba>)
    ensures
        rgba_bytes(pixels).len() == 4 * pixels.len(),
    decreases pixels.len(),
{
    if pixels.len() > 0 {
        lemma_rgba_bytes_len(pixels.drop_last());
    }
}

/// Four bytes per pixel of the first `rows` rows of a region that lies inside the pixels.
pub proof fn lemma_region_rgba_bytes_len(pixels: Seq<Rgba>, width: int, region: DirtyRegion, rows: int)
    requires
        0 < width,
        0 <= rows,
        region.x + region.width <= width,
        (region.y + rows) * width <= pixels.len(),
    ensures
        region_rgba_bytes(pixels, width, region, rows).len() == 4 * region.width * rows,
    decreases rows,
{
    if rows > 0 {
        let start = (region.y + rows - 1) * width + region.x;
        assert((region.y + rows - 1) * width + width == (region.y + rows) * width) by (nonlinear_arith);
        assert(0 <= (region.y + rows - 1) * width) by (nonlinear_arith)
            requires region.y + rows - 1 >= 0, width > 0;
        lemma_region_rgba_bytes_len(pixels, width, region, rows - 1);
        let piece = pixels.subrange(start, start + region.width);
        assert(piece.len() == region.width);
        lemma_rgba_bytes_len(piece);
        assert(region_rgba_bytes(pixels, width, region, rows) == region_rgba_bytes(
            pixels,
            width,
            region,
            rows - 1,
        ) + rgba_bytes(piece));
        assert(4 * region.width * (rows - 1) + 4 * region.width == 4 * region.width * rows)
            by (nonlinear_arith);
    } else {
        assert(4 * region.width * rows == 0) by (nonlinear_arith)
            requires rows == 0;
    }
}

/// Base64 takes four symbols for every three bytes or part of them.
pub proof fn lemma_base64_len(data: Seq<u8>)
    ensures
        base64_encode(data).len() <= 2 * data.len() + 4,
    decreases data.len(),
{
    if data.len() >= 3 {
        lemma_base64_len(data.subrange(3, data.len() as int));
    }
}

/// The framing adds at most nine bytes per chunk, and every chunk carries at least one
/// payload byte; the first chunk also carries the prefix.
pub proof fn lemma_kitty_chunks_len(prefix: Seq<u8>, payload: Seq<u8>, chunk_size: int, first: bool)
    requires
        chunk_size >= 1,
    ensures
        kitty_chunks(prefix, payload, chunk_size, first).len() <= (if first {
            prefix.len() as int
        } else {
            0
        }) + 10 * payload.len(),
    decreases payload.len(),
{
    reveal(kitty_chunks);
    if payload.len() > 0 {
        let taken = if chunk_size < payload.len() { chunk_size } else { payload.len() as int };
        let rest = payload.subrange(taken, payload.len() as int);
        let more: nat = if rest.len() > 0 { 1 } else { 0 };
        lemma_command_literal_lens();
        assert(decimal(more).len() == 1);
        lemma_kitty_chunks_len(prefix, rest, chunk_size, false);
    }
}

/// Reusable buffers for the raw RGBA bytes and the base64 payload of one encode.
#[derive(Clone, Debug, Default, PartialEq, Eq)]
pub struct KittyEncodeScratch {
    rgba: Vec<u8>,
    payload: String,
}

impl KittyEncodeScratch {
    /// The raw RGBA bytes held by the scratch.
    pub closed spec fn spec_rgba(&self) -> Seq<u8> {
        self.rgba@
    }

    /// The base64 payload held by the scratch.
    pub closed spec fn spec_payload(&self) -> Seq<char> {
        self.payload@
    }

    /// Scratch buffers that hold nothing yet.
    pub fn new() -> (scratch: KittyEncodeScratch)
        ensures
            scratch.spec_rgba() == Seq::<u8>::empty(),
            scratch.spec_payload() == Seq::<char>::empty(),
    {
        KittyEncodeScratch { rgba: Vec::new(), payload: String::new() }
    }

    fn load_canvas(&mut self, canvas: &Canvas)
        requires
            canvas.wf(),
        ensures
            final(self).rgba@ == rgba_bytes(canvas.spec_pixels()),
            final(self).payload@ == Seq::<char>::empty(),
    {
        self.rgba.clear();
        clear_string(&mut self.payload);
        let pixels = canvas.pixels();
        let len = pixels.len();
        let mut i: usize = 0;
        while i < len
            invariant
                len == pixels@.len(),
                pixels@ == canvas.spec_pixels(),
                i <= len,
                self.rgba@ == rgba_bytes(pixels@.subrange(0, i as int)),
                self.payload@ == Seq::<char>::empty(),
            decreases len - i,
        {
            let pixel = pixels[i];
            self.rgba.push(pixel.r);
            self.rgba.push(pixel.g);
            self.rgba.push(pixel.b);
            self.rgba.push(pixel.a);
            proof {
                assert(pixels@.subrange(0, i + 1).drop_last() == pixels@.subrange(0, i as int));
            }
            i = i + 1;
        }
        proof {
            assert(pixels@.subrange(0, len as int) == pixels@);
        }
    }

    fn load_canvas_region(&mut self, canvas: &Canvas, region: DirtyRegion)
        requires
            canvas.wf(),
            region_in_bounds(region, canvas.spec_width(), canvas.spec_height()),
        ensures
            final(self).rgba@ == region_rgba_bytes(
                canvas.spec_pixels(),
                canvas.spec_width(),
                region,
                region.height as int,
            ),
            final(self).payload@ == Seq::<char>::empty(),
    {
        self.rgba.clear();
        clear_string(&mut self.payload);
        proof {
            canvas.lemma_wf();
        }
        let pixels = canvas.pixels();
        let canvas_width = canvas.width() as usize;
        let ghost w = canvas.spec_width();
        let x = region.x as usize;
        let region_width = region.width as usize;
        let mut y = region.y;
        let end_y = region.y + region.height;
        while y < end_y
            invariant
                canvas.wf(),
                pixels@ == canvas.spec_pixels(),
                canvas_width == w,
                w == canvas.spec_width(),
                pixels@.len() == w * canvas.spec_height(),
                region_in_bounds(region, canvas.spec_width(), canvas.spec_height()),
                x == region.x,
                region_width == region.width,
                end_y == region.y + region.height,
                region.y <= y <= end_y,
                self.rgba@ == region_rgba_bytes(pixels@, w, region, y - region.y),
                self.payload@ == Seq::<char>::empty(),
            decreases end_y - y,
        {
            proof {
                canvas.lemma_wf();
                lemma_grid_bound(w, canvas.spec_height(), region.x as int, y as int);
                lemma_grid_bound(
                    w,
                    canvas.spec_height(),
                    region.x + region.width - 1,
                    y as int,
                );
                lemma_u16_product(y as int, w);
            }
            let start = y as usize * canvas_width + x;
            let end = start + region_width;
            let ghost before = self.rgba@;
            let mut i = start;
            while i < end
                invariant
                    pixels@ == canvas.spec_pixels(),
                    start <= i <= end,
                    end <= pixels@.len(),
                    self.rgba@ == before + rgba_bytes(pixels@.subrange(start as int, i as int)),
                    self.payload@ == Seq::<char>::empty(),
                decreases end - i,
            {
                let pixel = pixels[i];
                self.rgba.push(pixel.r);
                self.rgba.push(pixel.g);
                self.rgba.push(pixel.b);
                self.rgba.push(pixel.a);
                proof {
                    assert(pixels@.subrange(start as int, i + 1).drop_last() == pixels@.subrange(
                        start as int,
                        i as int,
                    ));
                }
                i = i + 1;
            }
            proof {
                assert(start == (region.y + (y + 1 - region.y) - 1) * w + region.x);
            }
            y = y + 1;
        }
    }

    /// The allocated capacities of the RGBA and payload buffers. The allocator decides
    /// them; each is at least what its buffer holds.
    pub fn capacities(&self) -> (capacities: (usize, usize))
        ensures
            capacities.0 >= self.spec_rgba().len(),
            capacities.1 >= self.spec_payload().len(),
    {
        (vec_capacity(&self.rgba), string_capacity(&self.payload))
    }
}

/// Builds Kitty graphics protocol commands for one image id.
#[derive(Clone, Debug, PartialEq, Eq)]
pub struct KittyGraphicsEncoder {
    image_id: KittyImageId,
    chunk_size: usize,
    placement: Option<KittyPlacement>,
    quiet: bool,
}

impl KittyGraphicsEncoder {
    pub closed spec fn spec_image_id(&self) -> KittyImageId {
        self.image_id
    }

    pub closed spec fn spec_chunk_size(&self) -> usize {
        self.chunk_size
    }

    pub closed spec fn spec_placement(&self) -> Option<KittyPlacement> {
        self.placement
    }

    pub closed spec fn spec_quiet(&self) -> bool {
        self.quiet
    }

    /// The payload piece size actually used: the configured size, but at least one byte.
    pub open spec fn effective_chunk_size(&self) -> int {
        if self.spec_chunk_size() == 0 {
            1
        } else {
            self.spec_chunk_size() as int
        }
    }

    /// The bytes that transmit `canvas` as this encoder's image.
    pub open spec fn spec_canvas_command(&self, canvas: Canvas) -> Seq<u8> {
        kitty_chunks(
            transmit_prefix(
                self.spec_image_id().spec_value(),
                canvas.spec_width() as u16,
                canvas.spec_height() as u16,
                self.spec_placement(),
                self.spec_quiet(),
            ),
            base64_encode(rgba_bytes(canvas.spec_pixels())),
            self.effective_chunk_size(),
            true,
        )
    }

    /// The bytes that replace `region` of the shown image with the same region of `canvas`.
    pub open spec fn spec_frame_region_command(&self, canvas: Canvas, region: DirtyRegion) -> Seq<
        u8,
    > {
        kitty_chunks(
            frame_prefix(self.spec_image_id().spec_value(), region),
            base64_encode(
                region_rgba_bytes(
                    canvas.spec_pixels(),
                    canvas.spec_width(),
                    region,
                    region.height as int,
                ),
            ),
            self.effective_chunk_size(),
            true,
        )
    }

    /// An encoder with 4096-byte chunks, no placement and terminal responses enabled.
    pub fn new(image_id: KittyImageId) -> (encoder: KittyGraphicsEncoder)
        ensures
            encoder.spec_image_id() == image_id,
            encoder.spec_chunk_size() == DEFAULT_CHUNK_SIZE,
            encoder.spec_placement() is None,
            !encoder.spec_quiet(),
    {
        KittyGraphicsEncoder { image_id, chunk_size: DEFAULT_CHUNK_SIZE, placement: None, quiet: false }
    }

    pub fn with_chunk_size(self, chunk_size: usize) -> (encoder: KittyGraphicsEncoder)
        ensures
            encoder.spec_image_id() == self.spec_image_id(),
            encoder.spec_chunk_size() == chunk_size,
            encoder.spec_placement() == self.spec_placement(),
            encoder.spec_quiet() == self.spec_quiet(),
    {
        KittyGraphicsEncoder { chunk_size, ..self }
    }

    pub fn with_placement(self, placement: KittyPlacement) -> (encoder: KittyGraphicsEncoder)
        ensures
            encoder.spec_image_id() == self.spec_image_id(),
            encoder.spec_chunk_size() == self.spec_chunk_size(),
            encoder.spec_placement() == Some(placement),
            encoder.spec_quiet() == self.spec_quiet(),
    {
        KittyGraphicsEncoder { placement: Some(placement), ..self }
    }

    /// Asks the terminal to send no success responses (`q=2`) for this encoder's transmit
    /// and delete commands; frame edits always ask for that.
    pub fn with_quiet_responses(self) -> (encoder: KittyGraphicsEncoder)
        ensures
            encoder.spec_image_id() == self.spec_image_id(),
            encoder.spec_chunk_size() == self.spec_chunk_size(),
            encoder.spec_placement() == self.spec_placement(),
            encoder.spec_quiet(),
    {
        KittyGraphicsEncoder { quiet: true, ..self }
    }

    fn push_quiet_flag(&self, bytes: &mut Vec<u8>)
        ensures
            final(bytes)@ == old(bytes)@ + quiet_flag(self.spec_quiet()),
    {
        if self.quiet {
            push_str(bytes, ",q=2");
        } else {
            assert(old(bytes)@ + Seq::<u8>::empty() == old(bytes)@);
        }
    }


    fn transmit_prefix_bytes(&self, canvas: &Canvas) -> (prefix: Vec<u8>)
        ensures
            prefix@ == transmit_prefix(
                self.spec_image_id().spec_value(),
                canvas.spec_width() as u16,
                canvas.spec_height() as u16,
                self.spec_placement(),
                self.spec_quiet(),
            ),
    {
        let mut prefix: Vec<u8> = Vec::new();
        push_str(&mut prefix, "\x1b_Ga=T");
        self.push_quiet_flag(&mut prefix);
        push_str(&mut prefix, ",f=32,i=");
        push_decimal(&mut prefix, self.image_id.value() as u64);
        push_str(&mut prefix, ",s=");
        push_decimal(&mut prefix, canvas.width() as u64);
        push_str(&mut prefix, ",v=");
        push_decimal(&mut prefix, canvas.height() as u64);
        let ghost base = prefix@;
        match self.placement {
            Some(placement) => {
                push_str(&mut prefix, ",c=");
                push_decimal(&mut prefix, placement.columns as u64);
                push_str(&mut prefix, ",r=");
                push_decimal(&mut prefix, placement.rows as u64);
                push_str(&mut prefix, ",C=1");
            },
            None => {},
        }
        proof {
            assert(Seq::<u8>::empty() + lit("\x1b_Ga=T") == lit("\x1b_Ga=T"));
        }
        prefix
    }

    fn frame_prefix_bytes(&self, region: DirtyRegion) -> (prefix: Vec<u8>)
        ensures
            prefix@ == frame_prefix(self.spec_image_id().spec_value(), region),
    {
        let mut prefix: Vec<u8> = Vec::new();
        push_str(&mut prefix, "\x1b_Ga=f,q=2,f=32,i=");
        push_decimal(&mut prefix, self.image_id.value() as u64);
        push_str(&mut prefix, ",r=1,x=");
        push_decimal(&mut prefix, region.x as u64);
        push_str(&mut prefix, ",y=");
        push_decimal(&mut prefix, region.y as u64);
        push_str(&mut prefix, ",s=");
        push_decimal(&mut prefix, region.width as u64);
        push_str(&mut prefix, ",v=");
        push_decimal(&mut prefix, region.height as u64);
        push_str(&mut prefix, ",X=1");
        proof {
            assert(Seq::<u8>::empty() + lit("\x1b_Ga=f,q=2,f=32,i=") == lit("\x1b_Ga=f,q=2,f=32,i="));
        }
        prefix
    }

    /// Appends the command that transmits and shows `canvas` as this encoder's image,
    /// reusing the buffers of `scratch`.
    pub fn append_canvas_with_scratch(
        &self,
        canvas: &Canvas,
        bytes: &mut Vec<u8>,
        scratch: &mut KittyEncodeScratch,
    )
        requires
            canvas.wf(),
        ensures
            final(bytes)@ == old(bytes)@ + self.spec_canvas_command(*canvas),
    {
        scratch.load_canvas(canvas);
        base64_encode_into(scratch.rgba.as_slice(), &mut scratch.payload);
        let prefix = self.transmit_prefix_bytes(canvas);
        let payload = scratch.payload.as_str().as_bytes();
        proof {
            lemma_ascii_payload(rgba_bytes(canvas.spec_pixels()));
            assert(Seq::<char>::empty() + ascii_chars(base64_encode(rgba_bytes(canvas.spec_pixels())))
                == ascii_chars(base64_encode(rgba_bytes(canvas.spec_pixels()))));
        }
        self.append_chunks(bytes, &prefix, payload);
    }

    /// Appends the command that transmits and shows `canvas` as this encoder's image.
    pub fn append_canvas(&self, canvas: &Canvas, bytes: &mut Vec<u8>)
        requires
            canvas.wf(),
        ensures
            final(bytes)@ == old(bytes)@ + self.spec_canvas_command(*canvas),
    {
        let mut scratch = KittyEncodeScratch::new();
        self.append_canvas_with_scratch(canvas, bytes, &mut scratch);
    }

    /// The command that transmits and shows `canvas` as this encoder's image.
    pub fn encode_canvas(&self, canvas: &Canvas) -> (bytes: Vec<u8>)
        requires
            canvas.wf(),
        ensures
            bytes@ == self.spec_canvas_command(*canvas),
    {
        let mut bytes = Vec::new();
        self.append_canvas(canvas, &mut bytes);
        proof {
            assert(Seq::<u8>::empty() + self.spec_canvas_command(*canvas) == self.spec_canvas_command(
                *canvas,
            ));
        }
        bytes
    }

    /// Appends the command that overwrites `region` of the shown image with the pixels of
    /// `canvas` in that region, reusing the buffers of `scratch`.
    pub fn append_frame_region_with_scratch(
        &self,
        canvas: &Canvas,
        region: DirtyRegion,
        bytes: &mut Vec<u8>,
        scratch: &mut KittyEncodeScratch,
    )
        requires
            canvas.wf(),
            region_in_bounds(region, canvas.spec_width(), canvas.spec_height()),
        ensures
            final(bytes)@ == old(bytes)@ + self.spec_frame_region_command(*canvas, region),
    {
        scratch.load_canvas_region(canvas, region);
        base64_encode_into(scratch.rgba.as_slice(), &mut scratch.payload);
        let prefix = self.frame_prefix_bytes(region);
        let payload = scratch.payload.as_str().as_bytes();
        proof {
            let data = region_rgba_bytes(
                canvas.spec_pixels(),
                canvas.spec_width(),
                region,
                region.height as int,
            );
            lemma_ascii_payload(data);
            assert(Seq::<char>::empty() + ascii_chars(base64_encode(data)) == ascii_chars(
                base64_encode(data),
            ));
        }
        self.append_chunks(bytes, &prefix, payload);
    }

    pub fn append_frame_region(&self, canvas: &Canvas, region: DirtyRegion, bytes: &mut Vec<u8>)
        requires
            canvas.wf(),
            region_in_bounds(region, canvas.spec_width(), canvas.spec_height()),
        ensures
            final(bytes)@ == old(bytes)@ + self.spec_frame_region_command(*canvas, region),
    {
        let mut scratch = KittyEncodeScratch::new();
        self.append_frame_region_with_scratch(canvas, region, bytes, &mut scratch);
    }

    pub fn encode_frame_region(&self, canvas: &Canvas, region: DirtyRegion) -> (bytes: Vec<u8>)
        requires
            canvas.wf(),
            region_in_bounds(region, canvas.spec_width(), canvas.spec_height()),
        ensures
            bytes@ == self.spec_frame_region_command(*canvas, region),
    {
        let mut bytes = Vec::new();
        self.append_frame_region(canvas, region, &mut bytes);
        proof {
            assert(Seq::<u8>::empty() + self.spec_frame_region_command(*canvas, region)
                == self.spec_frame_region_command(*canvas, region));
        }
        bytes
    }

    /// Appends the command that deletes this encoder's image and frees its data.
    pub fn append_delete(&self, bytes: &mut Vec<u8>)
        ensures
            final(bytes)@ == old(bytes)@ + delete_command(
                self.spec_image_id().spec_value(),
                self.spec_quiet(),
            ),
    {
        push_str(bytes, "\x1b_Ga=d");
        self.push_quiet_flag(bytes);
        push_str(bytes, ",d=i,i=");
        push_decimal(bytes, self.image_id.value() as u64);
        push_str(bytes, ";\x1b\\");
    }

    pub fn encode_delete(&self) -> (bytes: Vec<u8>)
        ensures
            bytes@ == delete_command(self.spec_image_id().spec_value(), self.spec_quiet()),
    {
        let mut bytes = Vec::new();
        self.append_delete(&mut bytes);
        proof {
            assert(Seq::<u8>::empty() + delete_command(
                self.spec_image_id().spec_value(),
                self.spec_quiet(),
            ) == delete_command(self.spec_image_id().spec_value(), self.spec_quiet()));
        }
        bytes
    }

    fn append_chunks(&self, bytes: &mut Vec<u8>, prefix: &Vec<u8>, payload: &[u8])
        ensures
            final(bytes)@ == old(bytes)@ + kitty_chunks(
                prefix@,
                payload@,
                self.effective_chunk_size(),
                true,
            ),
    {
        let chunk_size = if self.chunk_size == 0 { 1 } else { self.chunk_size };
        let len = payload.len();
        let mut offset: usize = 0;
        let mut first = true;
        assert(payload@.subrange(0, len as int) == payload@);
        while offset < len
            invariant
                chunk_size == self.effective_chunk_size(),
                chunk_size >= 1,
                len == payload@.len(),
                offset <= len,
                first == (offset == 0),
                old(bytes)@ + kitty_chunks(prefix@, payload@, chunk_size as int, true) == bytes@
                    + kitty_chunks(
                    prefix@,
                    payload@.subrange(offset as int, len as int),
                    chunk_size as int,
                    first,
                ),
            decreases len - offset,
        {
            let remaining = len - offset;
            let taken = if chunk_size < remaining { chunk_size } else { remaining };
            let next = offset + taken;
            let more: u64 = if next < len { 1 } else { 0 };
            let ghost rest = payload@.subrange(offset as int, len as int);
            let ghost before = bytes@;
            if first {
                push_slice(bytes, prefix.as_slice(), 0, prefix.len());
                proof {
                    assert(prefix@.subrange(0, prefix@.len() as int) == prefix@);
                }
                push_str(bytes, ",m=");
            } else {
                push_str(bytes, "\x1b_Gm=");
            }
            push_decimal(bytes, more);
            push_str(bytes, ";");
            push_slice(bytes, payload, offset, next);
            push_str(bytes, "\x1b\\");
            proof {
                lemma_kitty_chunks_step(prefix@, payload@, chunk_size as int, first, offset as int);
                let header = if first {
                    prefix@ + lit(",m=") + decimal(more as nat) + lit(";")
                } else {
                    lit("\x1b_Gm=") + decimal(more as nat) + lit(";")
                };
                let piece = payload@.subrange(offset as int, next as int);
                let tail = kitty_chunks(
                    prefix@,
                    payload@.subrange(next as int, len as int),
                    chunk_size as int,
                    false,
                );
                assert(bytes@ =~= before + header + piece + lit("\x1b\\"));
                assert(kitty_chunks(prefix@, rest, chunk_size as int, first) == header + piece + lit(
                    "\x1b\\",
                ) + tail);
                assert(before + (header + piece + lit("\x1b\\") + tail) =~= bytes@ + tail);
            }
            offset = next;
            first = false;
        }
        proof {
            reveal(kitty_chunks);
            assert(kitty_chunks(
                prefix@,
                payload@.subrange(offset as int, len as int),
                chunk_size as int,
                first,
            ) == Seq::<u8>::empty());
        }
    }
}

} // verus!
