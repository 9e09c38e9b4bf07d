//! The decoding side: the Identifier Resolver, and the target-builder of
//! records whose fields are unsigned numbers, fed one key and value at a time.

use vstd::prelude::*;

verus! {

/// What a failed decode reports, as plain values.
pub enum DecodeFault {
    UnknownIdentifier(Seq<char>, Seq<Seq<char>>),
    DuplicateField(Seq<char>),
    MissingField(Seq<char>),
    InvalidLength(nat),
    TypeMismatch,
    Custom(Seq<char>),
}

/// Why a decode failed.
#[derive(Clone, Debug, PartialEq, Eq)]
pub enum DecodeError {
    /// A field or variant name outside the allowed set; holds the name and
    /// the allowed names.
    UnknownIdentifier(String, Vec<&'static str>),
    /// A record field that arrived a second time; holds the field name.
    DuplicateField(String),
    /// A mandatory field that never arrived; holds the field name.
    MissingField(String),
    /// A positional input that ran out; holds how many elements it had.
    InvalidLength(usize),
    /// The target declined the value offered: a wrong shape, or a number
    /// out of the slot's range.
    TypeMismatch,
    /// A failure of the target's own logic, with its message.
    Custom(String),
}

impl View for DecodeError {
    type V = DecodeFault;

    open spec fn view(&self) -> DecodeFault {
        match self {
            DecodeError::UnknownIdentifier(s, allowed) => DecodeFault::UnknownIdentifier(
                s@,
                texts(allowed@),
            ),
            DecodeError::DuplicateField(s) => DecodeFault::DuplicateField(s@),
            DecodeError::MissingField(s) => DecodeFault::MissingField(s@),
            DecodeError::InvalidLength(n) => DecodeFault::InvalidLength(*n as nat),
            DecodeError::TypeMismatch => DecodeFault::TypeMismatch,
            DecodeError::Custom(s) => DecodeFault::Custom(s@),
        }
    }
}

/// A decode result of record values, seen as plain values.
pub open spec fn values_of(r: Result<Vec<u64>, DecodeError>) -> Result<Seq<u64>, DecodeFault> {
    match r {
        Ok(v) => Ok(v@),
        Err(e) => Err(e@),
    }
}

/// A decode result, seen as plain values.
pub open spec fn fault_of<T>(r: Result<T, DecodeError>) -> Result<T, DecodeFault> {
    match r {
        Ok(v) => Ok(v),
        Err(e) => Err(e@),
    }
}

/// The texts of a list of names.
pub open spec fn texts(names: Seq<&str>) -> Seq<Seq<char>> {
    names.map_values(|s: &str| s@)
}

/// Map entries with string keys, seen as plain values.
pub open spec fn entries_view(entries: Seq<(String, u64)>) -> Seq<(Seq<char>, u64)> {
    entries.map_values(|e: (String, u64)| (e.0@, e.1))
}

/// The index of the first name equal to `name`, if any.
pub open spec fn first_index(names: Seq<Seq<char>>, name: Seq<char>) -> Option<nat>
    decreases names.len(),
{
    if names.len() == 0 {
        None
    } else {
        match first_index(names.drop_last(), name) {
            Some(i) => Some(i),
            None => if names.last() == name {
                Some((names.len() - 1) as nat)
            } else {
                None
            },
        }
    }
}

/// The index of the first empty slot, if any.
pub open spec fn first_empty(slots: Seq<Option<u64>>) -> Option<nat>
    decreases slots.len(),
{
    if slots.len() == 0 {
        None
    } else {
        match first_empty(slots.drop_last()) {
            Some(i) => Some(i),
            None => if slots.last() is None {
                Some((slots.len() - 1) as nat)
            } else {
                None
            },
        }
    }
}

/// The value in a filled slot.
pub open spec fn slot_value(o: Option<u64>) -> u64 {
    match o {
        Some(v) => v,
        None => 0,
    }
}

/// `n` empty slots.
pub open spec fn empty_slots(n: nat) -> Seq<Option<u64>> {
    Seq::new(n, |i: int| None)
}

/// The Identifier Resolver: the index of `name` in the allowed set, or an
/// unknown-identifier failure naming it.
pub open spec fn resolve_spec(names: Seq<Seq<char>>, name: Seq<char>) -> Result<nat, DecodeFault> {
    match first_index(names, name) {
        Some(i) => Ok(i),
        None => Err(DecodeFault::UnknownIdentifier(name, names)),
    }
}

/// A record key arriving: it is resolved, and its slot must still be empty.
pub open spec fn accept_key_spec(
    names: Seq<Seq<char>>,
    slots: Seq<Option<u64>>,
    name: Seq<char>,
) -> Result<nat, DecodeFault> {
    match first_index(names, name) {
        None => Err(DecodeFault::UnknownIdentifier(name, names)),
        Some(i) => if slots[i as int] is Some {
            Err(DecodeFault::DuplicateField(names[i as int]))
        } else {
            Ok(i)
        },
    }
}

/// A value arriving for a slot: it must fit the slot's range.
pub open spec fn accept_value_spec(
    maxima: Seq<u64>,
    slots: Seq<Option<u64>>,
    i: nat,
    v: u64,
) -> Result<Seq<Option<u64>>, DecodeFault> {
    if v > maxima[i as int] {
        Err(DecodeFault::TypeMismatch)
    } else {
        Ok(slots.update(i as int, Some(v)))
    }
}

/// The slots after folding the entries in order, or the first failure.
pub open spec fn named_fold(
    names: Seq<Seq<char>>,
    maxima: Seq<u64>,
    slots: Seq<Option<u64>>,
    entries: Seq<(Seq<char>, u64)>,
) -> Result<Seq<Option<u64>>, DecodeFault>
    decreases entries.len(),
{
    if entries.len() == 0 {
        Ok(slots)
    } else {
        match named_fold(names, maxima, slots, entries.drop_last()) {
            Err(e) => Err(e),
            Ok(s) => match accept_key_spec(names, s, entries.last().0) {
                Err(e) => Err(e),
                Ok(i) => accept_value_spec(maxima, s, i, entries.last().1),
            },
        }
    }
}

/// The record's values once the input is exhausted: the first empty slot
/// is a missing field.
pub open spec fn finish_spec(names: Seq<Seq<char>>, slots: Seq<Option<u64>>) -> Result<
    Seq<u64>,
    DecodeFault,
> {
    match first_empty(slots) {
        Some(j) => Err(DecodeFault::MissingField(names[j as int])),
        None => Ok(slots.map_values(|o: Option<u64>| slot_value(o))),
    }
}

/// Decoding a record from named entries.
pub open spec fn decode_named_spec(
    names: Seq<Seq<char>>,
    maxima: Seq<u64>,
    slots: Seq<Option<u64>>,
    entries: Seq<(Seq<char>, u64)>,
) -> Result<Seq<u64>, DecodeFault> {
    match named_fold(names, maxima, slots, entries) {
        Err(e) => Err(e),
        Ok(s) => finish_spec(names, s),
    }
}

/// The first `k` fields pulled from a positional input, or the first failure.
pub open spec fn positional_fold(maxima: Seq<u64>, elems: Seq<u64>, k: nat) -> Result<
    Seq<u64>,
    DecodeFault,
>
    decreases k,
{
    if k == 0 {
        Ok(seq![])
    } else {
        match positional_fold(maxima, elems, (k - 1) as nat) {
            Err(e) => Err(e),
            Ok(vals) => if k - 1 >= elems.len() {
                Err(DecodeFault::InvalidLength((k - 1) as nat))
            } else if elems[k - 1] > maxima[k - 1] {
                Err(DecodeFault::TypeMismatch)
            } else {
                Ok(vals.push(elems[k - 1]))
            },
        }
    }
}

/// Decoding a record from a positional input: the fields in declared order.
/// Elements past the last field are not pulled.
pub open spec fn decode_positional_spec(maxima: Seq<u64>, elems: Seq<u64>) -> Result<
    Seq<u64>,
    DecodeFault,
> {
    positional_fold(maxima, elems, maxima.len())
}

/// The first index found holds the name, and no earlier one does.
pub proof fn lemma_first_index(names: Seq<Seq<char>>, name: Seq<char>)
    ensures
        match first_index(names, name) {
            Some(i) => i < names.len() && names[i as int] == name && forall|j: int|
                0 <= j < i ==> names[j] != name,
            None => forall|j: int| 0 <= j < names.len() ==> names[j] != name,
        },
    decreases names.len(),
{
    if names.len() > 0 {
        lemma_first_index(names.drop_last(), name);
        assert(forall|j: int| 0 <= j < names.len() - 1 ==> names.drop_last()[j] == names[j]);
    }
}

/// Once a prefix of the entries fails, the whole input fails the same way.
pub proof fn lemma_named_fold_error_stays(
    names: Seq<Seq<char>>,
    maxima: Seq<u64>,
    slots: Seq<Option<u64>>,
    entries: Seq<(Seq<char>, u64)>,
    p: int,
)
    requires
        0 <= p <= entries.len(),
        named_fold(names, maxima, slots, entries.subrange(0, p)) is Err,
    ensures
        named_fold(names, maxima, slots, entries) == named_fold(
            names,
            maxima,
            slots,
            entries.subrange(0, p),
        ),
    decreases entries.len(),
{
    if entries.len() == p {
        assert(entries.subrange(0, p) =~= entries);
    } else {
        assert(entries.drop_last().subrange(0, p) =~= entries.subrange(0, p));
        lemma_named_fold_error_stays(names, maxima, slots, entries.drop_last(), p);
    }
}

/// Once a positional prefix fails, the longer pull fails the same way.
pub proof fn lemma_positional_error_stays(maxima: Seq<u64>, elems: Seq<u64>, k: nat, n: nat)
    requires
        k <= n,
        positional_fold(maxima, elems, k) is Err,
    ensures
        positional_fold(maxima, elems, n) == positional_fold(maxima, elems, k),
    decreases n - k,
{
    if k < n {
        lemma_positional_error_stays(maxima, elems, k, (n - 1) as nat);
    }
}

/// An empty slot after a filled prefix is the first empty slot.
pub proof fn lemma_first_empty_prefix(slots: Seq<Option<u64>>, j: nat)
    requires
        j < slots.len(),
        first_empty(slots.subrange(0, j as int)) is None,
        slots[j as int] is None,
    ensures
        first_empty(slots) == Some(j),
    decreases slots.len(),
{
    if slots.len() == j + 1 {
        assert(slots.drop_last() =~= slots.subrange(0, j as int));
    } else {
        assert(slots.drop_last().subrange(0, j as int) =~= slots.subrange(0, j as int));
        lemma_first_empty_prefix(slots.drop_last(), j);
    }
}

/// Every filled slot holds a value within its field's range.
pub open spec fn slots_in_range(maxima: Seq<u64>, slots: Seq<Option<u64>>) -> bool {
    &&& slots.len() == maxima.len()
    &&& forall|k: int| 0 <= k < slots.len() && slots[k] is Some ==> slot_value(slots[k]) <= maxima[k]
}

/// Every value lies within its field's range.
pub open spec fn values_in_range(maxima: Seq<u64>, vals: Seq<u64>) -> bool {
    &&& vals.len() == maxima.len()
    &&& forall|k: int| 0 <= k < vals.len() ==> vals[k] <= maxima[k]
}

/// A successful fold keeps every filled slot within its field's range.
pub proof fn lemma_named_fold_in_range(
    names: Seq<Seq<char>>,
    maxima: Seq<u64>,
    slots: Seq<Option<u64>>,
    entries: Seq<(Seq<char>, u64)>,
)
    requires
        names.len() == maxima.len(),
        slots_in_range(maxima, slots),
    ensures
        named_fold(names, maxima, slots, entries) is Ok ==> slots_in_range(
            maxima,
            named_fold(names, maxima, slots, entries)->Ok_0,
        ),
    decreases entries.len(),
{
    if entries.len() > 0 {
        lemma_named_fold_in_range(names, maxima, slots, entries.drop_last());
        lemma_first_index(names, entries.last().0);
    }
}

/// A successful named decode gives one in-range value per field.
pub proof fn lemma_decode_named_in_range(
    names: Seq<Seq<char>>,
    maxima: Seq<u64>,
    slots: Seq<Option<u64>>,
    entries: Seq<(Seq<char>, u64)>,
)
    requires
        names.len() == maxima.len(),
        slots_in_range(maxima, slots),
    ensures
        decode_named_spec(names, maxima, slots, entries) is Ok ==> values_in_range(
            maxima,
            decode_named_spec(names, maxima, slots, entries)->Ok_0,
        ),
{
    lemma_named_fold_in_range(names, maxima, slots, entries);
    if let Ok(s) = named_fold(names, maxima, slots, entries) {
        lemma_first_empty(s);
    }
}

/// The first empty slot is empty; without one, every slot is filled.
pub proof fn lemma_first_empty(slots: Seq<Option<u64>>)
    ensures
        match first_empty(slots) {
            Some(j) => j < slots.len() && slots[j as int] is None,
            None => forall|k: int| 0 <= k < slots.len() ==> slots[k] is Some,
        },
    decreases slots.len(),
{
    if slots.len() > 0 {
        lemma_first_empty(slots.drop_last());
        assert(forall|k: int| 0 <= k < slots.len() - 1 ==> slots.drop_last()[k] == slots[k]);
    }
}

/// A successful positional pull gives one in-range value per field pulled.
pub proof fn lemma_positional_in_range(maxima: Seq<u64>, elems: Seq<u64>, k: nat)
    requires
        k <= maxima.len(),
    ensures
        positional_fold(maxima, elems, k) is Ok ==> {
            let vals = positional_fold(maxima, elems, k)->Ok_0;
            &&& vals.len() == k
            &&& forall|j: int| 0 <= j < k ==> vals[j] <= maxima[j]
        },
    decreases k,
{
    if k > 0 {
        lemma_positional_in_range(maxima, elems, (k - 1) as nat);
    }
}

/// Whether two strings hold the same characters.
fn same_text(a: &str, b: &str) -> (r: bool)
    ensures
        r == (a@ == b@),
{
    let n = a.unicode_len();
    let m = b.unicode_len();
    if n != m {
        return false;
    }
    let mut i: usize = 0;
    while i < n
        invariant
            n == a@.len(),
            m == b@.len(),
            n == m,
            i <= n,
            forall|k: int| 0 <= k < i ==> a@[k] == b@[k],
        decreases n - i,
    {
        if a.get_char(i) != b.get_char(i) {
            return false;
        }
        i += 1;
    }
    assert(a@ =~= b@);
    true
}

/// The Identifier Resolver: the index of the first allowed name equal to
/// `name`, or `UnknownIdentifier` with the name and the allowed names.
pub fn resolve_identifier(name: &str, allowed: &Vec<&'static str>) -> (r: Result<usize, DecodeError>)
    ensures
        match resolve_spec(texts(allowed@), name@) {
            Ok(i) => r is Ok && r->Ok_0 as nat == i,
            Err(f) => r is Err && r->Err_0@ == f,
        },
{
    let ghost names = texts(allowed@);
    let mut i: usize = 0;
    while i < allowed.len()
        invariant
            names == texts(allowed@),
            i <= allowed@.len(),
            first_index(names.subrange(0, i as int), name@) is None,
        decreases allowed.len() - i,
    {
        assert(names.subrange(0, i + 1).drop_last() =~= names.subrange(0, i as int));
        if same_text(allowed[i], name) {
            assert(first_index(names.subrange(0, i + 1), name@) == Some(i as nat));
            proof {
                lemma_first_index(names.subrange(0, i + 1), name@);
                lemma_first_index(names, name@);
                if let Some(j) = first_index(names, name@) {
                    if j < i {
                        assert(names.subrange(0, i as int)[j as int] == names[j as int]);
                        lemma_first_index(names.subrange(0, i as int), name@);
                    }
                    if j > i {
                        assert(names[i as int] == name@);
                    }
                }
            }
            return Ok(i);
        }
        i += 1;
    }
    proof {
        assert(names.subrange(0, i as int) =~= names);
    }
    let mut expected: Vec<&'static str> = Vec::new();
    let mut k: usize = 0;
    while k < allowed.len()
        invariant
            k <= allowed@.len(),
            expected@ == allowed@.subrange(0, k as int),
        decreases allowed.len() - k,
    {
        expected.push(allowed[k]);
        k += 1;
        assert(expected@ =~= allowed@.subrange(0, k as int));
    }
    assert(expected@ =~= allowed@);
    Err(DecodeError::UnknownIdentifier(name.to_owned(), expected))
}

/// The target-builder of a record whose fields are unsigned numbers: the
/// declared field names, the largest value each field takes, and a slot per
/// field that is filled as the input arrives.
pub struct RecordBuilder {
    names: Vec<&'static str>,
    maxima: Vec<u64>,
    slots: Vec<Option<u64>>,
}

impl RecordBuilder {
    /// The declared field names, in order.
    pub closed spec fn names(&self) -> Seq<Seq<char>> {
        texts(self.names@)
    }

    /// The largest value each field takes.
    pub closed spec fn maxima(&self) -> Seq<u64> {
        self.maxima@
    }

    /// The slots filled so far.
    pub closed spec fn slots(&self) -> Seq<Option<u64>> {
        self.slots@
    }

    /// One range and one slot per field.
    pub open spec fn wf(&self) -> bool {
        &&& self.maxima().len() == self.names().len()
        &&& self.slots().len() == self.names().len()
    }

    /// A builder for the given fields, with every slot empty.
    pub fn new(names: Vec<&'static str>, maxima: Vec<u64>) -> (r: RecordBuilder)
        requires
            names.len() == maxima.len(),
        ensures
            r.wf(),
            r.names() == texts(names@),
            r.maxima() == maxima@,
            r.slots() == empty_slots(names@.len()),
    {
        let mut slots: Vec<Option<u64>> = Vec::new();
        let mut i: usize = 0;
        while i < names.len()
            invariant
                i <= names@.len(),
                slots@ == empty_slots(i as nat),
            decreases names.len() - i,
        {
            slots.push(None);
            i += 1;
            assert(slots@ =~= empty_slots(i as nat));
        }
        RecordBuilder { names, maxima, slots }
    }

    /// A key arrives: it is resolved to its field, whose slot must still be
    /// empty. Gives the field's index.
    pub fn accept_key(&self, name: &str) -> (r: Result<usize, DecodeError>)
        requires
            self.wf(),
        ensures
            match accept_key_spec(self.names(), self.slots(), name@) {
                Ok(i) => r is Ok && r->Ok_0 as nat == i,
                Err(f) => r is Err && r->Err_0@ == f,
            },
    {
        proof {
            lemma_first_index(self.names(), name@);
        }
        match resolve_identifier(name, &self.names) {
            Err(e) => Err(e),
            Ok(i) => {
                assert(first_index(self.names(), name@) == Some(i as nat));
                assert(self.names()[i as int] == self.names@[i as int]@);
                if self.slots[i].is_some() {
                    let field: &str = self.names[i];
                    let r = Err(DecodeError::DuplicateField(field.to_owned()));
                    assert(r->Err_0@ == DecodeFault::DuplicateField(self.names()[i as int]));
                    r
                } else {
                    Ok(i)
                }
            },
        }
    }

    /// The value for field `slot` arrives: it fills the slot if it is in
    /// the field's range.
    pub fn accept_value(&mut self, slot: usize, v: u64) -> (r: Result<(), DecodeError>)
        requires
            old(self).wf(),
            slot < old(self).names().len(),
        ensures
            final(self).wf(),
            final(self).names() == old(self).names(),
            final(self).maxima() == old(self).maxima(),
            match accept_value_spec(old(self).maxima(), old(self).slots(), slot as nat, v) {
                Ok(s) => r is Ok && final(self).slots() == s,
                Err(f) => r is Err && r->Err_0@ == f && final(self).slots() == old(self).slots(),
            },
    {
        if v > self.maxima[slot] {
            Err(DecodeError::TypeMismatch)
        } else {
            self.slots.set(slot, Some(v));
            Ok(())
        }
    }

    /// The input is exhausted: every slot must be filled. Gives the values
    /// in declared order.
    pub fn finish(&self) -> (r: Result<Vec<u64>, DecodeError>)
        requires
            self.wf(),
        ensures
            values_of(r) == finish_spec(self.names(), self.slots()),
    {
        let ghost slots = self.slots();
        let mut vals: Vec<u64> = Vec::new();
        let mut j: usize = 0;
        while j < self.slots.len()
            invariant
                self.wf(),
                slots == self.slots(),
                j <= slots.len(),
                first_empty(slots.subrange(0, j as int)) is None,
                vals@ == slots.subrange(0, j as int).map_values(|o: Option<u64>| slot_value(o)),
            decreases self.slots.len() - j,
        {
            assert(slots.subrange(0, j + 1).drop_last() =~= slots.subrange(0, j as int));
            match self.slots[j] {
                None => {
                    proof {
                        lemma_first_empty_prefix(slots, j as nat);
                    }
                    return Err(DecodeError::MissingField(self.names[j].to_owned()));
                },
                Some(v) => {
                    vals.push(v);
                },
            }
            j += 1;
            assert(vals@ =~= slots.subrange(0, j as int).map_values(
                |o: Option<u64>| slot_value(o),
            ));
        }
        assert(slots.subrange(0, j as int) =~= slots);
        Ok(vals)
    }

    /// Decodes a record from named entries, taken in order from the current
    /// slots. The builder is used up.
    pub fn decode_named(self, entries: &Vec<(String, u64)>) -> (r: Result<
        Vec<u64>,
        DecodeError,
    >)
        requires
            self.wf(),
        ensures
            values_of(r) == decode_named_spec(
                self.names(),
                self.maxima(),
                self.slots(),
                entries_view(entries@),
            ),
    {
        let ghost ev = entries_view(entries@);
        let ghost slots0 = self.slots();
        let ghost names0 = self.names();
        let ghost maxima0 = self.maxima();
        let mut builder = self;
        let mut i: usize = 0;
        while i < entries.len()
            invariant
                builder.wf(),
                builder.names() == names0,
                builder.maxima() == maxima0,
                names0 == self.names(),
                maxima0 == self.maxima(),
                slots0 == self.slots(),
                ev == entries_view(entries@),
                i <= entries@.len(),
                named_fold(builder.names(), builder.maxima(), slots0, ev.subrange(0, i as int)) == Ok::<
                    Seq<Option<u64>>,
                    DecodeFault,
                >(builder.slots()),
            decreases entries.len() - i,
        {
            assert(ev.subrange(0, i + 1).drop_last() =~= ev.subrange(0, i as int));
            assert(ev.subrange(0, i + 1).last() == ev[i as int]);
            let ghost s = builder.slots();
            assert(ev[i as int] == (entries@[i as int].0@, entries@[i as int].1));
            let key = builder.accept_key(entries[i].0.as_str());
            match key {
                Err(e) => {
                    proof {
                        lemma_named_fold_error_stays(
                            builder.names(),
                            builder.maxima(),
                            slots0,
                            ev,
                            i + 1,
                        );
                    }
                    return Err(e);
                },
                Ok(k) => {
                    proof {
                        lemma_first_index(builder.names(), ev[i as int].0);
                    }
                    let accepted = builder.accept_value(k, entries[i].1);
                    if let Err(e) = accepted {
                        proof {
                            assert(accept_key_spec(builder.names(), s, ev[i as int].0) == Ok::<
                                nat,
                                DecodeFault,
                            >(k as nat));
                            assert(named_fold(
                                builder.names(),
                                builder.maxima(),
                                slots0,
                                ev.subrange(0, i + 1),
                            ) == accept_value_spec(builder.maxima(), s, k as nat, ev[i as int].1));
                            lemma_named_fold_error_stays(
                                builder.names(),
                                builder.maxima(),
                                slots0,
                                ev,
                                i + 1,
                            );
                        }
                        return Err(e);
                    }
                },
            }
            i += 1;
        }
        assert(ev.subrange(0, i as int) =~= ev);
        builder.finish()
    }

    /// Decodes a record from a positional input: one element per field, in
    /// declared order.
    pub fn decode_positional(&self, elems: &Vec<u64>) -> (r: Result<Vec<u64>, DecodeError>)
        requires
            self.wf(),
        ensures
            values_of(r) == decode_positional_spec(self.maxima(), elems@),
    {
        let n = self.maxima.len();
        let mut vals: Vec<u64> = Vec::new();
        let mut k: usize = 0;
        while k < n
            invariant
                self.wf(),
                n == self.maxima().len(),
                k <= n,
                positional_fold(self.maxima(), elems@, k as nat) == Ok::<Seq<u64>, DecodeFault>(
                    vals@,
                ),
            decreases n - k,
        {
            if k >= elems.len() {
                proof {
                    lemma_positional_error_stays(self.maxima(), elems@, (k + 1) as nat, n as nat);
                }
                return Err(DecodeError::InvalidLength(k));
            }
            if elems[k] > self.maxima[k] {
                proof {
                    lemma_positional_error_stays(self.maxima(), elems@, (k + 1) as nat, n as nat);
                }
                return Err(DecodeError::TypeMismatch);
            }
            vals.push(elems[k]);
            k += 1;
        }
        Ok(vals)
    }
}

} // verus!
