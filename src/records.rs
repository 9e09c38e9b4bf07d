//! The reference encodables and the two-field duration record, with their
//! encodings and, for the records, their decoding from named or positional input.

use vstd::prelude::*;
use crate::encoder::{
    bytes_text, lemma_frame_pushed, null_text, variant_prefix, Composite, Frame, Serializer,
};
use crate::decode::{
    decode_named_spec, decode_positional_spec, empty_slots, entries_view, fault_of,
    lemma_decode_named_in_range, lemma_positional_in_range, texts, values_in_range, DecodeError,
    DecodeFault, RecordBuilder,
};
use crate::text::{
    array_text, decimal, join, lemma_join_three, lemma_join_two, member_text, object_text,
    quoted, signed_decimal,
};

verus! {

/// The members of a three-field colour record.
pub open spec fn color_members(r: u8, g: u8, b: u8) -> Seq<(Seq<char>, Seq<char>)> {
    seq![
        (seq!['r'], decimal(r as nat)),
        (seq!['g'], decimal(g as nat)),
        (seq!['b'], decimal(b as nat)),
    ]
}

/// The colour's object text, member by member.
pub proof fn lemma_color_object(r: u8, g: u8, b: u8)
    ensures
        object_text(color_members(r, g, b)) == seq!['{'] + member_text(seq!['r'], decimal(r as nat))
            + seq![','] + member_text(seq!['g'], decimal(g as nat)) + seq![','] + member_text(
            seq!['b'],
            decimal(b as nat),
        ) + seq!['}'],
{
    let m = color_members(r, g, b);
    let f = |p: (Seq<char>, Seq<char>)| member_text(p.0, p.1);
    assert(m.map_values(f) =~= seq![f(m[0]), f(m[1]), f(m[2])]);
    lemma_join_three(f(m[0]), f(m[1]), f(m[2]));
}

/// Writes the three named fields `r`, `g`, `b` into an open object.
fn encode_color_fields(ser: &mut Serializer, r: u8, g: u8, b: u8)
    requires
        old(ser).frames().len() > 0,
        old(ser).frames().last().started == false,
        old(ser).frames().last().kind == Composite::Object || old(ser).frames().last().kind
            == Composite::StructVariant,
    ensures
        final(ser).text() == old(ser).text() + member_text(seq!['r'], decimal(r as nat)) + seq![
            ',',
        ] + member_text(seq!['g'], decimal(g as nat)) + seq![','] + member_text(
            seq!['b'],
            decimal(b as nat),
        ),
        final(ser).frames() == old(ser).frames().drop_last().push(
            Frame { kind: old(ser).frames().last().kind, started: true },
        ),
{
    let ghost outer = old(ser).frames().drop_last();
    let ghost kind = old(ser).frames().last().kind;
    proof {
        reveal_strlit("r");
        reveal_strlit("g");
        reveal_strlit("b");
        assert(old(ser).frames() =~= outer.push(Frame { kind, started: false }));
        lemma_frame_pushed(outer, kind, false);
        lemma_frame_pushed(outer, kind, true);
    }
    ser.begin_field("r");
    ser.serialize_u64(r as u64);
    ser.begin_field("g");
    ser.serialize_u64(g as u64);
    ser.begin_field("b");
    ser.serialize_u64(b as u64);
    assert(ser.text() =~= old(ser).text() + member_text(seq!['r'], decimal(r as nat)) + seq![',']
        + member_text(seq!['g'], decimal(g as nat)) + seq![','] + member_text(
        seq!['b'],
        decimal(b as nat),
    ));
}

/// A plain three-field record.
#[derive(Clone, Copy, Debug, PartialEq, Eq, Structural)]
pub struct Color {
    pub r: u8,
    pub g: u8,
    pub b: u8,
}

impl Color {
    /// Writes the colour as `{"r":R,"g":G,"b":B}`.
    pub fn encode(&self, ser: &mut Serializer)
        ensures
            final(ser).text() == old(ser).text() + object_text(
                color_members(self.r, self.g, self.b),
            ),
            final(ser).frames() == old(ser).frames(),
    {
        ser.serialize_struct("Color", 3);
        encode_color_fields(ser, self.r, self.g, self.b);
        proof {
            lemma_frame_pushed(old(ser).frames(), Composite::Object, true);
            lemma_color_object(self.r, self.g, self.b);
        }
        ser.end();
        assert(ser.text() =~= old(ser).text() + object_text(color_members(self.r, self.g, self.b)));
    }
}

/// The elements of a two-element coordinate record.
pub open spec fn point_items(x: i64, y: i64) -> Seq<Seq<char>> {
    seq![signed_decimal(x as int), signed_decimal(y as int)]
}

/// Writes the two coordinates as elements of an open array.
fn encode_point_elements(ser: &mut Serializer, x: i64, y: i64)
    requires
        old(ser).frames().len() > 0,
        old(ser).frames().last().started == false,
        old(ser).frames().last().kind == Composite::Array || old(ser).frames().last().kind
            == Composite::TupleVariant,
    ensures
        final(ser).text() == old(ser).text() + join(point_items(x, y)),
        final(ser).frames() == old(ser).frames().drop_last().push(
            Frame { kind: old(ser).frames().last().kind, started: true },
        ),
{
    let ghost outer = old(ser).frames().drop_last();
    let ghost kind = old(ser).frames().last().kind;
    proof {
        assert(old(ser).frames() =~= outer.push(Frame { kind, started: false }));
        lemma_frame_pushed(outer, kind, false);
        lemma_frame_pushed(outer, kind, true);
        lemma_join_two(signed_decimal(x as int), signed_decimal(y as int));
    }
    ser.begin_element();
    ser.serialize_i64(x);
    ser.begin_element();
    ser.serialize_i64(y);
    assert(ser.text() =~= old(ser).text() + join(point_items(x, y)));
}

/// A two-element positional coordinate record.
#[derive(Clone, Copy, Debug, PartialEq, Eq, Structural)]
pub struct Point2D(pub i64, pub i64);

impl Point2D {
    /// Writes the point as `[X,Y]`.
    pub fn encode(&self, ser: &mut Serializer)
        ensures
            final(ser).text() == old(ser).text() + array_text(point_items(self.0, self.1)),
            final(ser).frames() == old(ser).frames(),
    {
        ser.serialize_tuple_struct("Point2D", 2);
        encode_point_elements(ser, self.0, self.1);
        proof {
            lemma_frame_pushed(old(ser).frames(), Composite::Array, true);
        }
        ser.end();
        assert(ser.text() =~= old(ser).text() + array_text(point_items(self.0, self.1)));
    }
}

/// A single-value wrapper around an unsigned integer.
#[derive(Clone, Copy, Debug, PartialEq, Eq, Structural)]
pub struct Inches(pub u64);

impl Inches {
    /// Writes the wrapped value alone: the wrapper leaves no trace.
    pub fn encode(&self, ser: &mut Serializer)
        ensures
            final(ser).text() == old(ser).text() + decimal(self.0 as nat),
            final(ser).frames() == old(ser).frames(),
    {
        ser.serialize_u64(self.0);
    }
}

/// An empty marker type.
#[derive(Clone, Copy, Debug, PartialEq, Eq, Structural)]
pub struct Instance;

impl Instance {
    /// Writes the marker as `null`.
    pub fn encode(&self, ser: &mut Serializer)
        ensures
            final(ser).text() == old(ser).text() + null_text(),
            final(ser).frames() == old(ser).frames(),
    {
        ser.serialize_unit_struct("Instance");
    }
}

/// A tagged union with one arm of each shape.
#[derive(Clone, Copy, Debug, PartialEq, Eq, Structural)]
pub enum E {
    Color { r: u8, g: u8, b: u8 },
    Point2D(i64, i64),
    Inches(u64),
    Instance,
}

/// The wire text of each arm: a named-field arm as `{"Color":{...}}`, a
/// positional arm as `{"Point2D":[...]}`, a single-value arm as
/// `{"Inches":N}` and a unit arm as the bare string `"Instance"`.
pub open spec fn e_text(e: E) -> Seq<char> {
    match e {
        E::Color { r, g, b } => variant_prefix(seq!['C', 'o', 'l', 'o', 'r']) + object_text(
            color_members(r, g, b),
        ) + seq!['}'],
        E::Point2D(x, y) => variant_prefix(seq!['P', 'o', 'i', 'n', 't', '2', 'D']) + array_text(
            point_items(x, y),
        ) + seq!['}'],
        E::Inches(n) => variant_prefix(seq!['I', 'n', 'c', 'h', 'e', 's']) + decimal(n as nat)
            + seq!['}'],
        E::Instance => quoted(seq!['I', 'n', 's', 't', 'a', 'n', 'c', 'e']),
    }
}

impl E {
    /// Writes the arm in its own wire shape.
    pub fn encode(&self, ser: &mut Serializer)
        ensures
            final(ser).text() == old(ser).text() + e_text(*self),
            final(ser).frames() == old(ser).frames(),
    {
        match self {
            E::Color { r, g, b } => {
                ser.serialize_struct_variant("E", 0, "Color", 3);
                encode_color_fields(ser, *r, *g, *b);
                proof {
                    reveal_strlit("Color");
                    lemma_frame_pushed(old(ser).frames(), Composite::StructVariant, true);
                    lemma_color_object(*r, *g, *b);
                }
                ser.end();
                assert(ser.text() =~= old(ser).text() + e_text(*self));
            },
            E::Point2D(x, y) => {
                ser.serialize_tuple_variant("E", 1, "Point2D", 2);
                encode_point_elements(ser, *x, *y);
                proof {
                    reveal_strlit("Point2D");
                    lemma_frame_pushed(old(ser).frames(), Composite::TupleVariant, true);
                }
                ser.end();
                assert(ser.text() =~= old(ser).text() + e_text(*self));
            },
            E::Inches(n) => {
                ser.serialize_newtype_variant("E", 2, "Inches");
                ser.serialize_u64(*n);
                proof {
                    reveal_strlit("Inches");
                    lemma_frame_pushed(old(ser).frames(), Composite::NewtypeVariant, false);
                }
                ser.end();
                assert(ser.text() =~= old(ser).text() + e_text(*self));
            },
            E::Instance => {
                ser.serialize_unit_variant("E", 3, "Instance");
                proof {
                    reveal_strlit("Instance");
                }
            },
        }
    }
}

/// Writes a byte sequence element by element, as any sequence is written.
fn encode_byte_elements(ser: &mut Serializer, v: &[u8])
    ensures
        final(ser).text() == old(ser).text() + bytes_text(v@),
        final(ser).frames() == old(ser).frames(),
{
    ser.serialize_seq(Some(v.len()));
    let ghost digits = v@.map_values(|b: u8| decimal(b as nat));
    let mut i: usize = 0;
    while i < v.len()
        invariant
            0 <= i <= v@.len(),
            digits == v@.map_values(|b: u8| decimal(b as nat)),
            ser.frames() == old(ser).frames().push(Frame { kind: Composite::Array, started: i > 0 }),
            ser.text() == old(ser).text() + seq!['['] + join(digits.subrange(0, i as int)),
        decreases v.len() - i,
    {
        ser.begin_element();
        ser.serialize_u64(v[i] as u64);
        proof {
            crate::text::lemma_join_push(digits.subrange(0, i as int), digits[i as int]);
            assert(digits.subrange(0, i + 1) =~= digits.subrange(0, i as int).push(
                digits[i as int],
            ));
            lemma_frame_pushed(old(ser).frames(), Composite::Array, i > 0);
        }
        i += 1;
    }
    proof {
        lemma_frame_pushed(old(ser).frames(), Composite::Array, i > 0);
    }
    ser.end();
    assert(digits.subrange(0, v@.len() as int) =~= digits);
    assert(ser.text() =~= old(ser).text() + bytes_text(v@));
}

/// The members of a record with a borrowed byte field and an owned one.
pub open spec fn efficient_members(bytes: Seq<u8>, byte_buf: Seq<u8>) -> Seq<
    (Seq<char>, Seq<char>),
> {
    seq![
        (seq!['b', 'y', 't', 'e', 's'], bytes_text(bytes)),
        (seq!['b', 'y', 't', 'e', '_', 'b', 'u', 'f'], bytes_text(byte_buf)),
    ]
}

/// A record whose borrowed byte field takes the byte-sequence path of the
/// encoder, and whose owned one is written as a plain sequence.
pub struct Efficient2<'a> {
    pub bytes: &'a [u8],
    pub byte_buf: Vec<u8>,
}

impl<'a> Efficient2<'a> {
    /// Writes `{"bytes":[...],"byte_buf":[...]}`; both paths give the same
    /// array text.
    pub fn encode(&self, ser: &mut Serializer)
        ensures
            final(ser).text() == old(ser).text() + object_text(
                efficient_members(self.bytes@, self.byte_buf@),
            ),
            final(ser).frames() == old(ser).frames(),
    {
        proof {
            reveal_strlit("bytes");
            reveal_strlit("byte_buf");
            lemma_frame_pushed(old(ser).frames(), Composite::Object, false);
            lemma_frame_pushed(old(ser).frames(), Composite::Object, true);
        }
        ser.serialize_struct("Efficient2", 2);
        ser.begin_field("bytes");
        ser.serialize_bytes(self.bytes);
        ser.begin_field("byte_buf");
        encode_byte_elements(ser, self.byte_buf.as_slice());
        ser.end();
        proof {
            let m = efficient_members(self.bytes@, self.byte_buf@);
            let f = |p: (Seq<char>, Seq<char>)| member_text(p.0, p.1);
            assert(m.map_values(f) =~= seq![f(m[0]), f(m[1])]);
            lemma_join_two(f(m[0]), f(m[1]));
        }
        assert(ser.text() =~= old(ser).text() + object_text(
            efficient_members(self.bytes@, self.byte_buf@),
        ));
    }
}

/// The field names of a colour, in declared order.
pub open spec fn color_names() -> Seq<Seq<char>> {
    seq![seq!['r'], seq!['g'], seq!['b']]
}

/// Each colour component is a byte.
pub open spec fn color_maxima() -> Seq<u64> {
    seq![255u64, 255u64, 255u64]
}

/// The colour made of three values in declared order.
pub open spec fn color_of(vals: Seq<u64>) -> Color {
    Color { r: vals[0] as u8, g: vals[1] as u8, b: vals[2] as u8 }
}

/// A decode result of values, as a colour.
pub open spec fn color_result(r: Result<Seq<u64>, DecodeFault>) -> Result<Color, DecodeFault> {
    match r {
        Ok(vals) => Ok(color_of(vals)),
        Err(e) => Err(e),
    }
}

impl Color {
    /// A target-builder for a colour: fields `r`, `g`, `b`, each a byte.
    pub fn record_builder() -> (r: RecordBuilder)
        ensures
            r.wf(),
            r.names() == color_names(),
            r.maxima() == color_maxima(),
            r.slots() == empty_slots(3),
    {
        let names: Vec<&'static str> = vec!["r", "g", "b"];
        let maxima: Vec<u64> = vec![255, 255, 255];
        proof {
            reveal_strlit("r");
            reveal_strlit("g");
            reveal_strlit("b");
            assert(names@[0]@ =~= seq!['r']);
            assert(names@[1]@ =~= seq!['g']);
            assert(names@[2]@ =~= seq!['b']);
            assert(texts(names@) =~= color_names());
            assert(maxima@ =~= color_maxima());
        }
        RecordBuilder::new(names, maxima)
    }

    /// The colour made of three values in declared order.
    pub fn from_values(vals: &Vec<u64>) -> (c: Color)
        requires
            values_in_range(color_maxima(), vals@),
        ensures
            c == color_of(vals@),
    {
        Color { r: vals[0] as u8, g: vals[1] as u8, b: vals[2] as u8 }
    }

    /// Decodes a colour from named entries.
    pub fn from_map(entries: &Vec<(String, u64)>) -> (r: Result<Color, DecodeError>)
        ensures
            fault_of(r) == color_result(
                decode_named_spec(color_names(), color_maxima(), empty_slots(3), entries_view(entries@)),
            ),
    {
        let builder = Color::record_builder();
        let decoded = builder.decode_named(entries);
        proof {
            lemma_decode_named_in_range(
                color_names(),
                color_maxima(),
                empty_slots(3),
                entries_view(entries@),
            );
        }
        match decoded {
            Err(e) => Err(e),
            Ok(vals) => Ok(Color::from_values(&vals)),
        }
    }

    /// Decodes a colour from a positional input.
    pub fn from_seq(elems: &Vec<u64>) -> (r: Result<Color, DecodeError>)
        ensures
            fault_of(r) == color_result(decode_positional_spec(color_maxima(), elems@)),
    {
        let builder = Color::record_builder();
        let decoded = builder.decode_positional(elems);
        proof {
            lemma_positional_in_range(color_maxima(), elems@, 3);
        }
        match decoded {
            Err(e) => Err(e),
            Ok(vals) => Ok(Color::from_values(&vals)),
        }
    }
}

/// A duration split into whole seconds and nanoseconds.
#[derive(Clone, Copy, Debug, PartialEq, Eq, Structural)]
pub struct Duration {
    pub secs: u64,
    pub nanos: u32,
}

/// The members of a duration's named form.
pub open spec fn duration_members(d: Duration) -> Seq<(Seq<char>, Seq<char>)> {
    seq![
        (seq!['s', 'e', 'c', 's'], decimal(d.secs as nat)),
        (seq!['n', 'a', 'n', 'o', 's'], decimal(d.nanos as nat)),
    ]
}

/// The field names of a duration, in declared order.
pub open spec fn duration_names() -> Seq<Seq<char>> {
    seq![seq!['s', 'e', 'c', 's'], seq!['n', 'a', 'n', 'o', 's']]
}

/// Seconds take any `u64`, nanoseconds any `u32`.
pub open spec fn duration_maxima() -> Seq<u64> {
    seq![u64::MAX, u32::MAX as u64]
}

/// The duration made of two values in declared order.
pub open spec fn duration_of(vals: Seq<u64>) -> Duration {
    Duration { secs: vals[0], nanos: vals[1] as u32 }
}

/// A decode result of values, as a duration.
pub open spec fn duration_result(r: Result<Seq<u64>, DecodeFault>) -> Result<
    Duration,
    DecodeFault,
> {
    match r {
        Ok(vals) => Ok(duration_of(vals)),
        Err(e) => Err(e),
    }
}

impl Duration {
    pub fn new(secs: u64, nanos: u32) -> (d: Duration)
        ensures
            d.secs == secs,
            d.nanos == nanos,
    {
        Duration { secs, nanos }
    }

    /// Writes the duration in its named form: `{"secs":S,"nanos":N}`.
    pub fn encode(&self, ser: &mut Serializer)
        ensures
            final(ser).text() == old(ser).text() + object_text(duration_members(*self)),
            final(ser).frames() == old(ser).frames(),
    {
        proof {
            reveal_strlit("secs");
            reveal_strlit("nanos");
            lemma_frame_pushed(old(ser).frames(), Composite::Object, false);
            lemma_frame_pushed(old(ser).frames(), Composite::Object, true);
        }
        ser.serialize_struct("Duration", 2);
        ser.begin_field("secs");
        ser.serialize_u64(self.secs);
        ser.begin_field("nanos");
        ser.serialize_u64(self.nanos as u64);
        ser.end();
        proof {
            let m = duration_members(*self);
            let f = |p: (Seq<char>, Seq<char>)| member_text(p.0, p.1);
            assert(m.map_values(f) =~= seq![f(m[0]), f(m[1])]);
            lemma_join_two(f(m[0]), f(m[1]));
        }
        assert(ser.text() =~= old(ser).text() + object_text(duration_members(*self)));
    }

    /// A target-builder for a duration: fields `secs` and `nanos`.
    pub fn record_builder() -> (r: RecordBuilder)
        ensures
            r.wf(),
            r.names() == duration_names(),
            r.maxima() == duration_maxima(),
            r.slots() == empty_slots(2),
    {
        let names: Vec<&'static str> = vec!["secs", "nanos"];
        let maxima: Vec<u64> = vec![u64::MAX, u32::MAX as u64];
        proof {
            reveal_strlit("secs");
            reveal_strlit("nanos");
            assert(names@[0]@ =~= seq!['s', 'e', 'c', 's']);
            assert(names@[1]@ =~= seq!['n', 'a', 'n', 'o', 's']);
            assert(texts(names@) =~= duration_names());
            assert(maxima@ =~= duration_maxima());
        }
        RecordBuilder::new(names, maxima)
    }

    /// The duration made of two values in declared order.
    pub fn from_values(vals: &Vec<u64>) -> (d: Duration)
        requires
            values_in_range(duration_maxima(), vals@),
        ensures
            d == duration_of(vals@),
    {
        Duration::new(vals[0], vals[1] as u32)
    }

    /// Decodes a duration from named entries, as from `{"secs":1,"nanos":2}`.
    pub fn from_map(entries: &Vec<(String, u64)>) -> (r: Result<Duration, DecodeError>)
        ensures
            fault_of(r) == duration_result(
                decode_named_spec(
                    duration_names(),
                    duration_maxima(),
                    empty_slots(2),
                    entries_view(entries@),
                ),
            ),
    {
        let builder = Duration::record_builder();
        let decoded = builder.decode_named(entries);
        proof {
            lemma_decode_named_in_range(
                duration_names(),
                duration_maxima(),
                empty_slots(2),
                entries_view(entries@),
            );
        }
        match decoded {
            Err(e) => Err(e),
            Ok(vals) => Ok(Duration::from_values(&vals)),
        }
    }

    /// Decodes a duration from a positional input, as from `[1,2]`.
    pub fn from_seq(elems: &Vec<u64>) -> (r: Result<Duration, DecodeError>)
        ensures
            fault_of(r) == duration_result(decode_positional_spec(duration_maxima(), elems@)),
    {
        let builder = Duration::record_builder();
        let decoded = builder.decode_positional(elems);
        proof {
            lemma_positional_in_range(duration_maxima(), elems@, 2);
        }
        match decoded {
            Err(e) => Err(e),
            Ok(vals) => Ok(Duration::from_values(&vals)),
        }
    }
}

} // verus!
