//! The encoder engine: one operation per value shape, each appending its
//! text to a single buffer.

use vstd::prelude::*;
use crate::text::{
    decimal, join, lemma_join_push, push_decimal, push_quoted, push_signed_decimal, quoted, signed_decimal,
};

verus! {

/// The kind of a composite value that is open in the encoder.
#[derive(Clone, Copy, PartialEq, Eq, Structural, Debug)]
pub enum Composite {
    /// A sequence, a tuple or a positional record: `[...]`.
    Array,
    /// A map or a named-field record: `{...}`.
    Object,
    /// A single-value union arm: `{"Variant":value}`.
    NewtypeVariant,
    /// A positional union arm: `{"Variant":[...]}`.
    TupleVariant,
    /// A named-field union arm: `{"Variant":{...}}`.
    StructVariant,
}

/// An open composite, and whether an element has been written in it yet.
#[derive(Clone, Copy, PartialEq, Eq, Structural, Debug)]
pub struct Frame {
    pub kind: Composite,
    pub started: bool,
}

/// The text that closes a composite of the given kind.
pub open spec fn closing(kind: Composite) -> Seq<char> {
    match kind {
        Composite::Array => seq![']'],
        Composite::Object => seq!['}'],
        Composite::NewtypeVariant => seq!['}'],
        Composite::TupleVariant => seq![']', '}'],
        Composite::StructVariant => seq!['}', '}'],
    }
}

/// The separator written before an element: none before the first.
pub open spec fn separator(started: bool) -> Seq<char> {
    if started {
        seq![',']
    } else {
        seq![]
    }
}

/// The text of a boolean.
pub open spec fn bool_text(v: bool) -> Seq<char> {
    if v {
        seq!['t', 'r', 'u', 'e']
    } else {
        seq!['f', 'a', 'l', 's', 'e']
    }
}

/// The text of an absent value or a unit.
pub open spec fn null_text() -> Seq<char> {
    seq!['n', 'u', 'l', 'l']
}

/// The text that opens a union arm with a payload: `{"Variant":`.
pub open spec fn variant_prefix(variant: Seq<char>) -> Seq<char> {
    seq!['{'] + quoted(variant) + seq![':']
}

/// The array text of a byte sequence: each byte in decimal.
pub open spec fn bytes_text(bytes: Seq<u8>) -> Seq<char> {
    seq!['['] + join(bytes.map_values(|b: u8| decimal(b as nat))) + seq![']']
}

/// Whether elements of an array-shaped composite can be written on top.
pub open spec fn takes_elements(frames: Seq<Frame>) -> bool {
    frames.len() > 0 && (frames.last().kind == Composite::Array || frames.last().kind
        == Composite::TupleVariant)
}

/// Whether named fields can be written on top.
pub open spec fn takes_fields(frames: Seq<Frame>) -> bool {
    frames.len() > 0 && (frames.last().kind == Composite::Object || frames.last().kind
        == Composite::StructVariant)
}

/// Whether map keys and values can be written on top.
pub open spec fn takes_entries(frames: Seq<Frame>) -> bool {
    frames.len() > 0 && frames.last().kind == Composite::Object
}

/// The frames after an element has been started on top.
pub open spec fn mark_started(frames: Seq<Frame>) -> Seq<Frame> {
    frames.update(frames.len() - 1, Frame { kind: frames.last().kind, started: true })
}

/// Marking the frame just pushed as started, and popping it again.
pub proof fn lemma_frame_pushed(frames: Seq<Frame>, kind: Composite, started: bool)
    ensures
        mark_started(frames.push(Frame { kind, started })) == frames.push(
            Frame { kind, started: true },
        ),
        frames.push(Frame { kind, started }).drop_last() == frames,
{
    assert(mark_started(frames.push(Frame { kind, started })) =~= frames.push(
        Frame { kind, started: true },
    ));
    assert(frames.push(Frame { kind, started }).drop_last() =~= frames);
}

/// The encoder: a growing text buffer and the stack of composites that are
/// open in it. Each operation appends the text of one value shape; an
/// element's separator is decided by its composite's own `started` flag.
pub struct Serializer {
    output: String,
    frames: Vec<Frame>,
}

impl Serializer {
    /// The text written so far.
    pub closed spec fn text(&self) -> Seq<char> {
        self.output@
    }

    /// The composites that are open, outermost first.
    pub closed spec fn frames(&self) -> Seq<Frame> {
        self.frames@
    }

    /// An encoder with an empty buffer and nothing open.
    pub fn new() -> (r: Serializer)
        ensures
            r.text() == Seq::<char>::empty(),
            r.frames() == Seq::<Frame>::empty(),
    {
        Serializer { output: String::new(), frames: Vec::new() }
    }

    /// The text written, once the encoding is over.
    pub fn into_string(self) -> (r: String)
        ensures
            r@ == self.text(),
    {
        self.output
    }

    /// The innermost open composite, if any.
    pub fn innermost(&self) -> (r: Option<Frame>)
        ensures
            r == (if self.frames().len() == 0 {
                None
            } else {
                Some(self.frames().last())
            }),
    {
        if self.frames.len() == 0 {
            None
        } else {
            Some(self.frames[self.frames.len() - 1])
        }
    }

    /// Writes `true` or `false`.
    pub fn serialize_bool(&mut self, v: bool)
        ensures
            final(self).text() == old(self).text() + bool_text(v),
            final(self).frames() == old(self).frames(),
    {
        if v {
            self.output.push('t');
            self.output.push('r');
            self.output.push('u');
            self.output.push('e');
        } else {
            self.output.push('f');
            self.output.push('a');
            self.output.push('l');
            self.output.push('s');
            self.output.push('e');
        }
        assert(self.output@ =~= old(self).text() + bool_text(v));
    }

    /// Writes a signed integer in decimal.
    pub fn serialize_i64(&mut self, v: i64)
        ensures
            final(self).text() == old(self).text() + signed_decimal(v as int),
            final(self).frames() == old(self).frames(),
    {
        push_signed_decimal(&mut self.output, v);
    }

    /// Writes an unsigned integer in decimal.
    pub fn serialize_u64(&mut self, v: u64)
        ensures
            final(self).text() == old(self).text() + decimal(v as nat),
            final(self).frames() == old(self).frames(),
    {
        push_decimal(&mut self.output, v);
    }

    /// Writes the decimal text of a floating-point number, as the caller
    /// rendered it.
    pub fn serialize_float_text(&mut self, rendered: &str)
        ensures
            final(self).text() == old(self).text() + rendered@,
            final(self).frames() == old(self).frames(),
    {
        self.output.append(rendered);
    }

    /// Writes a character as a one-character string.
    pub fn serialize_char(&mut self, v: char)
        ensures
            final(self).text() == old(self).text() + quoted(seq![v]),
            final(self).frames() == old(self).frames(),
    {
        self.output.push('"');
        self.output.push(v);
        self.output.push('"');
        assert(self.output@ =~= old(self).text() + quoted(seq![v]));
    }

    /// Writes a string between double quotes, with no escaping.
    pub fn serialize_str(&mut self, v: &str)
        ensures
            final(self).text() == old(self).text() + quoted(v@),
            final(self).frames() == old(self).frames(),
    {
        push_quoted(&mut self.output, v);
    }

    /// Writes `null`, the text of a unit.
    pub fn serialize_unit(&mut self)
        ensures
            final(self).text() == old(self).text() + null_text(),
            final(self).frames() == old(self).frames(),
    {
        self.output.push('n');
        self.output.push('u');
        self.output.push('l');
        self.output.push('l');
        assert(self.output@ =~= old(self).text() + null_text());
    }

    /// Writes an absent value: `null`.
    pub fn serialize_none(&mut self)
        ensures
            final(self).text() == old(self).text() + null_text(),
            final(self).frames() == old(self).frames(),
    {
        self.serialize_unit();
    }

    /// Writes a marker type that carries no data: `null`.
    pub fn serialize_unit_struct(&mut self, _name: &str)
        ensures
            final(self).text() == old(self).text() + null_text(),
            final(self).frames() == old(self).frames(),
    {
        self.serialize_unit();
    }

    /// Writes a union arm without payload as the bare variant name.
    pub fn serialize_unit_variant(&mut self, _name: &str, _variant_index: u32, variant: &str)
        ensures
            final(self).text() == old(self).text() + quoted(variant@),
            final(self).frames() == old(self).frames(),
    {
        self.serialize_str(variant);
    }

    /// Writes a byte sequence as an array of its bytes in decimal.
    pub fn serialize_bytes(&mut self, v: &[u8])
        ensures
            final(self).text() == old(self).text() + bytes_text(v@),
            final(self).frames() == old(self).frames(),
    {
        self.serialize_seq(Some(v.len()));
        let ghost digits = v@.map_values(|b: u8| decimal(b as nat));
        let mut i: usize = 0;
        while i < v.len()
            invariant
                0 <= i <= v@.len(),
                digits == v@.map_values(|b: u8| decimal(b as nat)),
                self.frames() == old(self).frames().push(
                    Frame { kind: Composite::Array, started: i > 0 },
                ),
                self.text() == old(self).text() + seq!['['] + join(digits.subrange(0, i as int)),
            decreases v.len() - i,
        {
            self.begin_element();
            self.serialize_u64(v[i] as u64);
            proof {
                lemma_join_push(digits.subrange(0, i as int), digits[i as int]);
                assert(digits.subrange(0, i + 1) =~= digits.subrange(0, i as int).push(
                    digits[i as int],
                ));
                assert(mark_started(old(self).frames().push(
                    Frame { kind: Composite::Array, started: i > 0 },
                )) =~= old(self).frames().push(Frame { kind: Composite::Array, started: true }));
            }
            i += 1;
        }
        self.end();
        assert(digits.subrange(0, v@.len() as int) =~= digits);
        assert(self.text() =~= old(self).text() + bytes_text(v@));
        assert(self.frames() =~= old(self).frames());
    }

    fn open(&mut self, kind: Composite, opening: char)
        ensures
            final(self).text() == old(self).text().push(opening),
            final(self).frames() == old(self).frames().push(Frame { kind, started: false }),
    {
        self.output.push(opening);
        self.frames.push(Frame { kind, started: false });
    }

    fn open_variant(&mut self, kind: Composite, variant: &str)
        ensures
            final(self).text() == old(self).text() + variant_prefix(variant@),
            final(self).frames() == old(self).frames().push(Frame { kind, started: false }),
    {
        self.output.push('{');
        push_quoted(&mut self.output, variant);
        self.output.push(':');
        self.frames.push(Frame { kind, started: false });
        assert(self.output@ =~= old(self).text() + variant_prefix(variant@));
    }

    /// Opens a sequence: `[`.
    pub fn serialize_seq(&mut self, _len: Option<usize>)
        ensures
            final(self).text() == old(self).text() + seq!['['],
            final(self).frames() == old(self).frames().push(
                Frame { kind: Composite::Array, started: false },
            ),
    {
        self.open(Composite::Array, '[');
        assert(self.output@ =~= old(self).text() + seq!['[']);
    }

    /// Opens a tuple, written as an array.
    pub fn serialize_tuple(&mut self, len: usize)
        ensures
            final(self).text() == old(self).text() + seq!['['],
            final(self).frames() == old(self).frames().push(
                Frame { kind: Composite::Array, started: false },
            ),
    {
        self.serialize_seq(Some(len));
    }

    /// Opens a positional record, written as an array.
    pub fn serialize_tuple_struct(&mut self, _name: &str, len: usize)
        ensures
            final(self).text() == old(self).text() + seq!['['],
            final(self).frames() == old(self).frames().push(
                Frame { kind: Composite::Array, started: false },
            ),
    {
        self.serialize_seq(Some(len));
    }

    /// Opens a map: `{`.
    pub fn serialize_map(&mut self, _len: Option<usize>)
        ensures
            final(self).text() == old(self).text() + seq!['{'],
            final(self).frames() == old(self).frames().push(
                Frame { kind: Composite::Object, started: false },
            ),
    {
        self.open(Composite::Object, '{');
        assert(self.output@ =~= old(self).text() + seq!['{']);
    }

    /// Opens a named-field record, written as an object.
    pub fn serialize_struct(&mut self, _name: &str, len: usize)
        ensures
            final(self).text() == old(self).text() + seq!['{'],
            final(self).frames() == old(self).frames().push(
                Frame { kind: Composite::Object, started: false },
            ),
    {
        self.serialize_map(Some(len));
    }

    /// Opens a single-value union arm: `{"Variant":`. The payload is written
    /// next, then `end` closes the arm.
    pub fn serialize_newtype_variant(&mut self, _name: &str, _variant_index: u32, variant: &str)
        ensures
            final(self).text() == old(self).text() + variant_prefix(variant@),
            final(self).frames() == old(self).frames().push(
                Frame { kind: Composite::NewtypeVariant, started: false },
            ),
    {
        self.open_variant(Composite::NewtypeVariant, variant);
    }

    /// Opens a positional union arm: `{"Variant":[`.
    pub fn serialize_tuple_variant(
        &mut self,
        _name: &str,
        _variant_index: u32,
        variant: &str,
        _len: usize,
    )
        ensures
            final(self).text() == old(self).text() + variant_prefix(variant@) + seq!['['],
            final(self).frames() == old(self).frames().push(
                Frame { kind: Composite::TupleVariant, started: false },
            ),
    {
        self.open_variant(Composite::TupleVariant, variant);
        self.output.push('[');
        assert(self.output@ =~= old(self).text() + variant_prefix(variant@) + seq!['[']);
    }

    /// Opens a named-field union arm: `{"Variant":{`.
    pub fn serialize_struct_variant(
        &mut self,
        _name: &str,
        _variant_index: u32,
        variant: &str,
        _len: usize,
    )
        ensures
            final(self).text() == old(self).text() + variant_prefix(variant@) + seq!['{'],
            final(self).frames() == old(self).frames().push(
                Frame { kind: Composite::StructVariant, started: false },
            ),
    {
        self.open_variant(Composite::StructVariant, variant);
        self.output.push('{');
        assert(self.output@ =~= old(self).text() + variant_prefix(variant@) + seq!['{']);
    }

    fn start_element(&mut self)
        requires
            old(self).frames().len() > 0,
        ensures
            final(self).text() == old(self).text() + separator(old(self).frames().last().started),
            final(self).frames() == mark_started(old(self).frames()),
    {
        let last = self.frames.len() - 1;
        let top = self.frames[last];
        if top.started {
            self.output.push(',');
        }
        self.frames.set(last, Frame { kind: top.kind, started: true });
        assert(self.output@ =~= old(self).text() + separator(old(self).frames().last().started));
    }

    /// Starts the next element of an array or a positional union arm: a
    /// comma before every element but the first. The element is written next.
    pub fn begin_element(&mut self)
        requires
            takes_elements(old(self).frames()),
        ensures
            final(self).text() == old(self).text() + separator(old(self).frames().last().started),
            final(self).frames() == mark_started(old(self).frames()),
    {
        self.start_element();
    }

    /// Starts the next entry of a map: a comma before every entry but the
    /// first. The key is written next, then `begin_value`, then the value.
    pub fn begin_key(&mut self)
        requires
            takes_entries(old(self).frames()),
        ensures
            final(self).text() == old(self).text() + separator(old(self).frames().last().started),
            final(self).frames() == mark_started(old(self).frames()),
    {
        self.start_element();
    }

    /// Separates a map key from its value: `:`.
    pub fn begin_value(&mut self)
        requires
            takes_entries(old(self).frames()),
        ensures
            final(self).text() == old(self).text() + seq![':'],
            final(self).frames() == old(self).frames(),
    {
        self.output.push(':');
        assert(self.output@ =~= old(self).text() + seq![':']);
    }

    /// Starts the next field of a named-field record or union arm:
    /// a comma unless it is the first, then `"key":`. The value is written next.
    pub fn begin_field(&mut self, key: &str)
        requires
            takes_fields(old(self).frames()),
        ensures
            final(self).text() == old(self).text() + separator(old(self).frames().last().started)
                + quoted(key@) + seq![':'],
            final(self).frames() == mark_started(old(self).frames()),
    {
        self.start_element();
        push_quoted(&mut self.output, key);
        self.output.push(':');
        assert(self.output@ =~= old(self).text() + separator(old(self).frames().last().started)
            + quoted(key@) + seq![':']);
    }

    /// Closes the innermost composite with its own closing text.
    pub fn end(&mut self)
        requires
            old(self).frames().len() > 0,
        ensures
            final(self).text() == old(self).text() + closing(old(self).frames().last().kind),
            final(self).frames() == old(self).frames().drop_last(),
    {
        let top = self.frames.pop().unwrap();
        match top.kind {
            Composite::Array => {
                self.output.push(']');
            },
            Composite::Object | Composite::NewtypeVariant => {
                self.output.push('}');
            },
            Composite::TupleVariant => {
                self.output.push(']');
                self.output.push('}');
            },
            Composite::StructVariant => {
                self.output.push('}');
                self.output.push('}');
            },
        }
        assert(self.output@ =~= old(self).text() + closing(top.kind));
        assert(self.frames@ =~= old(self).frames().drop_last());
    }
}

} // verus!
