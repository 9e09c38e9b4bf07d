//! Properties that relate several operations of the codec.

use vstd::prelude::*;
use crate::decode::{
    lemma_positional_error_stays, positional_fold,
    accept_key_spec, decode_named_spec, decode_positional_spec, empty_slots, first_index,
    lemma_first_index, lemma_named_fold_error_stays, named_fold, DecodeFault,
};
use crate::encoder::bytes_text;
use crate::records::{
    color_maxima, color_members, color_names, color_result, duration_maxima, duration_members,
    duration_names, duration_result, Color, Duration,
};
use crate::text::{
    array_text, count_char, decimal, join, lemma_count_concat, lemma_count_single,
    lemma_join_count, member_texts, object_text, total_count,
};

verus! {

/// The entries that a duration's named form carries: each field name with
/// its value.
pub open spec fn duration_entries(d: Duration) -> Seq<(Seq<char>, u64)> {
    seq![(seq!['s', 'e', 'c', 's'], d.secs), (seq!['n', 'a', 'n', 'o', 's'], d.nanos as u64)]
}

/// The entries that a colour's named form carries.
pub open spec fn color_entries(c: Color) -> Seq<(Seq<char>, u64)> {
    seq![(seq!['r'], c.r as u64), (seq!['g'], c.g as u64), (seq!['b'], c.b as u64)]
}

/// Entries with their values written in decimal: the members of an object.
pub open spec fn entries_in_decimal(entries: Seq<(Seq<char>, u64)>) -> Seq<(Seq<char>, Seq<char>)> {
    entries.map_values(|e: (Seq<char>, u64)| (e.0, decimal(e.1 as nat)))
}

/// Round trip of a duration: the object that `Duration::encode` writes holds
/// exactly the duration's entries, and those entries decode back to the same
/// duration; so does its positional form `[secs,nanos]`.
pub proof fn lemma_duration_round_trip(d: Duration)
    ensures
        duration_members(d) == entries_in_decimal(duration_entries(d)),
        duration_result(
            decode_named_spec(duration_names(), duration_maxima(), empty_slots(2), duration_entries(d)),
        ) == Ok::<Duration, DecodeFault>(d),
        duration_result(decode_positional_spec(duration_maxima(), seq![d.secs, d.nanos as u64]))
            == Ok::<Duration, DecodeFault>(d),
{
    reveal_with_fuel(first_index, 4);
    reveal_with_fuel(named_fold, 4);
    reveal_with_fuel(crate::decode::first_empty, 4);
    reveal_with_fuel(crate::decode::positional_fold, 4);
    assert(duration_members(d) =~= entries_in_decimal(duration_entries(d)));
    let e = duration_entries(d);
    let names = duration_names();
    assert(e.drop_last() =~= seq![e[0]]);
    assert(e.drop_last().drop_last() =~= Seq::<(Seq<char>, u64)>::empty());
    assert(names.drop_last() =~= seq![names[0]]);
    assert(names.drop_last().drop_last() =~= Seq::<Seq<char>>::empty());
    assert(seq![names[0]].drop_last() =~= Seq::<Seq<char>>::empty());
    assert(first_index(names, e[0].0) == Some(0nat));
    assert(e[1].0 != names[0]) by {
        assert(e[1].0.len() != names[0].len());
    }
    assert(first_index(names, e[1].0) == Some(1nat));
    let s1 = empty_slots(2).update(0, Some(d.secs));
    let s2 = s1.update(1, Some(d.nanos as u64));
    assert(named_fold(names, duration_maxima(), empty_slots(2), e) == Ok::<
        Seq<Option<u64>>,
        DecodeFault,
    >(s2));
    assert(s2.drop_last() =~= seq![Some(d.secs)]);
    assert(seq![Some(d.secs)].drop_last() =~= Seq::<Option<u64>>::empty());
    let vals = s2.map_values(|o: Option<u64>| crate::decode::slot_value(o));
    assert(vals =~= seq![d.secs, d.nanos as u64]);
    let p = seq![d.secs, d.nanos as u64];
    assert(crate::decode::positional_fold(duration_maxima(), p, 1) == Ok::<Seq<u64>, DecodeFault>(
        seq![d.secs],
    ));
    assert(seq![d.secs].push(d.nanos as u64) =~= p);
}

/// Round trip of a colour: the object that `Color::encode` writes holds
/// exactly the colour's entries, and those entries decode back to the same
/// colour; so does its positional form `[r,g,b]`.
pub proof fn lemma_color_round_trip(c: Color)
    ensures
        color_members(c.r, c.g, c.b) == entries_in_decimal(color_entries(c)),
        color_result(
            decode_named_spec(color_names(), color_maxima(), empty_slots(3), color_entries(c)),
        ) == Ok::<Color, DecodeFault>(c),
        color_result(
            decode_positional_spec(color_maxima(), seq![c.r as u64, c.g as u64, c.b as u64]),
        ) == Ok::<Color, DecodeFault>(c),
{
    reveal_with_fuel(first_index, 4);
    reveal_with_fuel(named_fold, 4);
    reveal_with_fuel(crate::decode::first_empty, 4);
    reveal_with_fuel(crate::decode::positional_fold, 4);
    assert(color_members(c.r, c.g, c.b) =~= entries_in_decimal(color_entries(c)));
    let e = color_entries(c);
    let names = color_names();
    assert(e.drop_last() =~= seq![e[0], e[1]]);
    assert(seq![e[0], e[1]].drop_last() =~= seq![e[0]]);
    assert(seq![e[0]].drop_last() =~= Seq::<(Seq<char>, u64)>::empty());
    assert(names.drop_last() =~= seq![names[0], names[1]]);
    assert(seq![names[0], names[1]].drop_last() =~= seq![names[0]]);
    assert(seq![names[0]].drop_last() =~= Seq::<Seq<char>>::empty());
    assert(names[0] != names[1] && names[0] != names[2] && names[1] != names[2]) by {
        assert(names[0][0] != names[1][0]);
        assert(names[0][0] != names[2][0]);
        assert(names[1][0] != names[2][0]);
    }
    assert(first_index(names, e[0].0) == Some(0nat));
    assert(first_index(names, e[1].0) == Some(1nat));
    assert(first_index(names, e[2].0) == Some(2nat));
    let s1 = empty_slots(3).update(0, Some(c.r as u64));
    let s2 = s1.update(1, Some(c.g as u64));
    let s3 = s2.update(2, Some(c.b as u64));
    assert(named_fold(names, color_maxima(), empty_slots(3), seq![e[0]]) == Ok::<
        Seq<Option<u64>>,
        DecodeFault,
    >(s1));
    assert(named_fold(names, color_maxima(), empty_slots(3), seq![e[0], e[1]]) == Ok::<
        Seq<Option<u64>>,
        DecodeFault,
    >(s2));
    assert(named_fold(names, color_maxima(), empty_slots(3), e) == Ok::<
        Seq<Option<u64>>,
        DecodeFault,
    >(s3));
    assert(s3.drop_last() =~= seq![Some(c.r as u64), Some(c.g as u64)]);
    assert(seq![Some(c.r as u64), Some(c.g as u64)].drop_last() =~= seq![Some(c.r as u64)]);
    assert(seq![Some(c.r as u64)].drop_last() =~= Seq::<Option<u64>>::empty());
    let vals = s3.map_values(|o: Option<u64>| crate::decode::slot_value(o));
    assert(vals =~= seq![c.r as u64, c.g as u64, c.b as u64]);
    let p = seq![c.r as u64, c.g as u64, c.b as u64];
    assert(crate::decode::positional_fold(color_maxima(), p, 1) == Ok::<Seq<u64>, DecodeFault>(
        seq![p[0]],
    ));
    assert(seq![p[0]].push(p[1]) =~= seq![p[0], p[1]]);
    assert(crate::decode::positional_fold(color_maxima(), p, 2) == Ok::<Seq<u64>, DecodeFault>(
        seq![p[0], p[1]],
    ));
    assert(seq![p[0], p[1]].push(p[2]) =~= p);
}

/// Separators and punctuation of a composite: among `n` elements with no
/// comma of their own the array and the object write `n - 1` commas (none
/// for zero or one element), and each writes one opening and one closing
/// mark of its own besides those inside its elements, at any depth.
pub proof fn lemma_separators(items: Seq<Seq<char>>, members: Seq<(Seq<char>, Seq<char>)>)
    ensures
        total_count(items, ',') == 0 ==> count_char(array_text(items), ',') == if items.len()
            == 0 {
            0
        } else {
            (items.len() - 1) as nat
        },
        count_char(array_text(items), '[') == 1 + total_count(items, '['),
        count_char(array_text(items), ']') == 1 + total_count(items, ']'),
        array_text(items)[0] == '[',
        array_text(items).last() == ']',
        total_count(member_texts(members), ',') == 0 ==> count_char(object_text(members), ',')
            == if members.len() == 0 {
            0
        } else {
            (members.len() - 1) as nat
        },
        count_char(object_text(members), '{') == 1 + total_count(member_texts(members), '{'),
        count_char(object_text(members), '}') == 1 + total_count(member_texts(members), '}'),
        object_text(members)[0] == '{',
        object_text(members).last() == '}',
{
    let m = member_texts(members);
    assert forall|c: char|
        count_char(array_text(items), c) == count_char(seq!['['], c) + count_char(join(items), c)
            + count_char(seq![']'], c) by {
        lemma_count_concat(seq!['['] + join(items), seq![']'], c);
        lemma_count_concat(seq!['['], join(items), c);
    }
    assert forall|c: char|
        count_char(object_text(members), c) == count_char(seq!['{'], c) + count_char(join(m), c)
            + count_char(seq!['}'], c) by {
        lemma_count_concat(seq!['{'] + join(m), seq!['}'], c);
        lemma_count_concat(seq!['{'], join(m), c);
    }
    lemma_join_count(items, ',');
    lemma_join_count(items, '[');
    lemma_join_count(items, ']');
    lemma_join_count(m, ',');
    lemma_join_count(m, '{');
    lemma_join_count(m, '}');
    lemma_count_single('[', ',');
    lemma_count_single(']', ',');
    lemma_count_single('[', '[');
    lemma_count_single(']', '[');
    lemma_count_single('[', ']');
    lemma_count_single(']', ']');
    lemma_count_single('{', ',');
    lemma_count_single('}', ',');
    lemma_count_single('{', '{');
    lemma_count_single('}', '{');
    lemma_count_single('{', '}');
    lemma_count_single('}', '}');
}

/// Decimal text holds no comma.
pub proof fn lemma_decimal_has_no_comma(n: nat)
    ensures
        count_char(decimal(n), ',') == 0,
    decreases n,
{
    reveal_with_fuel(count_char, 2);
    if n >= 10 {
        lemma_decimal_has_no_comma(n / 10);
        lemma_count_concat(decimal(n / 10), seq![crate::text::digit_char(n % 10)], ',');
        lemma_count_single(crate::text::digit_char(n % 10), ',');
        assert(decimal(n) == decimal(n / 10) + seq![crate::text::digit_char(n % 10)]);
    } else {
        lemma_count_single(crate::text::digit_char(n), ',');
    }
}

/// The byte-sequence encoding of `n` bytes writes `n - 1` commas, none for
/// zero or one byte.
pub proof fn lemma_bytes_separators(bytes: Seq<u8>)
    ensures
        count_char(bytes_text(bytes), ',') == if bytes.len() == 0 {
            0
        } else {
            (bytes.len() - 1) as nat
        },
{
    let items = bytes.map_values(|b: u8| decimal(b as nat));
    lemma_no_comma_items(bytes);
    assert(bytes_text(bytes) == array_text(items));
    lemma_separators(items, Seq::<(Seq<char>, Seq<char>)>::empty());
}

proof fn lemma_no_comma_items(bytes: Seq<u8>)
    ensures
        total_count(bytes.map_values(|b: u8| decimal(b as nat)), ',') == 0,
    decreases bytes.len(),
{
    let items = bytes.map_values(|b: u8| decimal(b as nat));
    if bytes.len() > 0 {
        assert(items.drop_last() =~= bytes.drop_last().map_values(|b: u8| decimal(b as nat)));
        lemma_no_comma_items(bytes.drop_last());
        lemma_decimal_has_no_comma(bytes.last() as nat);
    }
}

/// Each key that a successful fold has seen is a declared field, and its
/// slot is filled.
pub proof fn lemma_fold_fills(
    names: Seq<Seq<char>>,
    maxima: Seq<u64>,
    slots: Seq<Option<u64>>,
    entries: Seq<(Seq<char>, u64)>,
)
    requires
        slots.len() == names.len(),
        maxima.len() == names.len(),
    ensures
        named_fold(names, maxima, slots, entries) is Ok ==> {
            let s = named_fold(names, maxima, slots, entries)->Ok_0;
            &&& s.len() == names.len()
            &&& forall|q: int|
                0 <= q < entries.len() ==> {
                    &&& #[trigger] first_index(names, entries[q].0) is Some
                    &&& s[first_index(names, entries[q].0)->Some_0 as int] is Some
                }
        },
    decreases entries.len(),
{
    if entries.len() > 0 {
        lemma_fold_fills(names, maxima, slots, entries.drop_last());
        lemma_first_index(names, entries.last().0);
        assert(forall|q: int| 0 <= q < entries.len() - 1 ==> entries.drop_last()[q] == entries[q]);
        if named_fold(names, maxima, slots, entries) is Ok {
            let s = named_fold(names, maxima, slots, entries)->Ok_0;
            let s0 = named_fold(names, maxima, slots, entries.drop_last())->Ok_0;
            let t = first_index(names, entries.last().0)->Some_0;
            assert(s == s0.update(t as int, Some(entries.last().1)));
            assert forall|q: int| 0 <= q < entries.len() implies {
                &&& #[trigger] first_index(names, entries[q].0) is Some
                &&& s[first_index(names, entries[q].0)->Some_0 as int] is Some
            } by {
                if q < entries.len() - 1 {
                    assert(entries.drop_last()[q] == entries[q]);
                    let tq = first_index(names, entries[q].0)->Some_0;
                    assert(s0[tq as int] is Some);
                    lemma_first_index(names, entries[q].0);
                }
            }
        }
    }
}

/// With every key declared and every value in its field's range, a fold
/// fails only on a repeated field.
pub proof fn lemma_fold_fails_only_on_repeat(
    names: Seq<Seq<char>>,
    maxima: Seq<u64>,
    slots: Seq<Option<u64>>,
    entries: Seq<(Seq<char>, u64)>,
)
    requires
        slots.len() == names.len(),
        maxima.len() == names.len(),
        forall|q: int|
            0 <= q < entries.len() ==> #[trigger] first_index(names, entries[q].0) is Some
                && entries[q].1 <= maxima[first_index(names, entries[q].0)->Some_0 as int],
    ensures
        named_fold(names, maxima, slots, entries) is Err ==> named_fold(
            names,
            maxima,
            slots,
            entries,
        )->Err_0 is DuplicateField,
        named_fold(names, maxima, slots, entries) is Ok ==> named_fold(
            names,
            maxima,
            slots,
            entries,
        )->Ok_0.len() == names.len(),
    decreases entries.len(),
{
    if entries.len() > 0 {
        assert(forall|q: int| 0 <= q < entries.len() - 1 ==> entries.drop_last()[q] == entries[q]);
        lemma_fold_fails_only_on_repeat(names, maxima, slots, entries.drop_last());
        lemma_first_index(names, entries.last().0);
        assert(first_index(names, entries[entries.len() - 1].0) is Some);
    }
}

/// A field name that comes twice in a named input is never silently
/// overwritten: the decode fails. When every key is a declared field and
/// every value is in range, it fails with `DuplicateField`.
pub proof fn lemma_duplicate_field(
    names: Seq<Seq<char>>,
    maxima: Seq<u64>,
    slots: Seq<Option<u64>>,
    entries: Seq<(Seq<char>, u64)>,
    i: int,
    j: int,
)
    requires
        slots.len() == names.len(),
        maxima.len() == names.len(),
        0 <= i < j < entries.len(),
        entries[i].0 == entries[j].0,
    ensures
        decode_named_spec(names, maxima, slots, entries) is Err,
        (forall|q: int|
            0 <= q < entries.len() ==> #[trigger] first_index(names, entries[q].0) is Some
                && entries[q].1 <= maxima[first_index(names, entries[q].0)->Some_0 as int])
            ==> decode_named_spec(names, maxima, slots, entries)->Err_0 is DuplicateField,
{
    let pre = entries.subrange(0, j);
    let pre1 = entries.subrange(0, j + 1);
    assert(pre1.drop_last() =~= pre);
    assert(pre1.last() == entries[j]);
    assert(pre[i] == entries[i]);
    lemma_fold_fills(names, maxima, slots, pre);
    lemma_first_index(names, entries[j].0);
    if named_fold(names, maxima, slots, pre1) is Ok {
        let s = named_fold(names, maxima, slots, pre)->Ok_0;
        assert(first_index(names, pre[i].0) is Some);
        assert(accept_key_spec(names, s, entries[j].0) is Err);
        assert(false);
    }
    lemma_named_fold_error_stays(names, maxima, slots, entries, j + 1);
    if forall|q: int|
        0 <= q < entries.len() ==> #[trigger] first_index(names, entries[q].0) is Some
            && entries[q].1 <= maxima[first_index(names, entries[q].0)->Some_0 as int] {
        lemma_fold_fails_only_on_repeat(names, maxima, slots, entries);
    }
}

/// A key outside the declared fields makes a named decode fail. When the
/// entries before it were accepted, it fails with `UnknownIdentifier`
/// naming that key and the declared fields.
pub proof fn lemma_unknown_field(
    names: Seq<Seq<char>>,
    maxima: Seq<u64>,
    slots: Seq<Option<u64>>,
    entries: Seq<(Seq<char>, u64)>,
    u: int,
)
    requires
        slots.len() == names.len(),
        maxima.len() == names.len(),
        0 <= u < entries.len(),
        first_index(names, entries[u].0) is None,
    ensures
        decode_named_spec(names, maxima, slots, entries) is Err,
        named_fold(names, maxima, slots, entries.subrange(0, u)) is Ok ==> decode_named_spec(
            names,
            maxima,
            slots,
            entries,
        ) == Err::<Seq<u64>, DecodeFault>(DecodeFault::UnknownIdentifier(entries[u].0, names)),
{
    lemma_fold_fills(names, maxima, slots, entries);
    if named_fold(names, maxima, slots, entries) is Ok {
        assert(first_index(names, entries[u].0) is Some);
    }
    let pre1 = entries.subrange(0, u + 1);
    assert(pre1.drop_last() =~= entries.subrange(0, u));
    assert(pre1.last() == entries[u]);
    if named_fold(names, maxima, slots, entries.subrange(0, u)) is Ok {
        lemma_named_fold_error_stays(names, maxima, slots, entries, u + 1);
    }
}

/// A slot that starts empty and that no key resolves to stays empty through
/// a successful fold.
pub proof fn lemma_fold_leaves_empty(
    names: Seq<Seq<char>>,
    maxima: Seq<u64>,
    slots: Seq<Option<u64>>,
    entries: Seq<(Seq<char>, u64)>,
    k: int,
)
    requires
        slots.len() == names.len(),
        maxima.len() == names.len(),
        0 <= k < names.len(),
        slots[k] is None,
        forall|q: int| 0 <= q < entries.len() ==> entries[q].0 != names[k],
    ensures
        named_fold(names, maxima, slots, entries) is Ok ==> {
            let s = named_fold(names, maxima, slots, entries)->Ok_0;
            s.len() == names.len() && s[k] is None
        },
    decreases entries.len(),
{
    if entries.len() > 0 {
        assert(forall|q: int| 0 <= q < entries.len() - 1 ==> entries.drop_last()[q] == entries[q]);
        lemma_fold_leaves_empty(names, maxima, slots, entries.drop_last(), k);
        lemma_first_index(names, entries.last().0);
        assert(entries.last() == entries[entries.len() - 1]);
    }
}

/// A declared field whose name no entry carries makes a named decode fail;
/// when the entries themselves were accepted, it fails with `MissingField`.
pub proof fn lemma_missing_field(
    names: Seq<Seq<char>>,
    maxima: Seq<u64>,
    slots: Seq<Option<u64>>,
    entries: Seq<(Seq<char>, u64)>,
    k: int,
)
    requires
        slots.len() == names.len(),
        maxima.len() == names.len(),
        0 <= k < names.len(),
        slots[k] is None,
        forall|q: int| 0 <= q < entries.len() ==> entries[q].0 != names[k],
    ensures
        decode_named_spec(names, maxima, slots, entries) is Err,
        named_fold(names, maxima, slots, entries) is Ok ==> decode_named_spec(
            names,
            maxima,
            slots,
            entries,
        )->Err_0 is MissingField,
{
    lemma_fold_leaves_empty(names, maxima, slots, entries, k);
    if named_fold(names, maxima, slots, entries) is Ok {
        let s = named_fold(names, maxima, slots, entries)->Ok_0;
        crate::decode::lemma_first_empty(s);
    }
}

/// A positional fold that succeeds has pulled only elements that were there.
pub proof fn lemma_positional_pulls_present(maxima: Seq<u64>, elems: Seq<u64>, k: nat)
    ensures
        positional_fold(maxima, elems, k) is Ok ==> k <= elems.len() && positional_fold(
            maxima,
            elems,
            k,
        )->Ok_0 == elems.subrange(0, k as int),
    decreases k,
{
    if k > 0 {
        lemma_positional_pulls_present(maxima, elems, (k - 1) as nat);
        if positional_fold(maxima, elems, k) is Ok {
            assert(elems.subrange(0, k - 1).push(elems[k - 1]) =~= elems.subrange(0, k as int));
        }
    }
}

/// A positional input shorter than the record fails to decode; when the
/// elements it has are in range, it fails with `InvalidLength` of its length.
pub proof fn lemma_positional_short_input(maxima: Seq<u64>, elems: Seq<u64>)
    requires
        elems.len() < maxima.len(),
    ensures
        decode_positional_spec(maxima, elems) is Err,
        (forall|q: int| 0 <= q < elems.len() ==> elems[q] <= maxima[q]) ==> decode_positional_spec(
            maxima,
            elems,
        ) == Err::<Seq<u64>, DecodeFault>(DecodeFault::InvalidLength(elems.len())),
{
    lemma_positional_pulls_present(maxima, elems, maxima.len());
    if forall|q: int| 0 <= q < elems.len() ==> elems[q] <= maxima[q] {
        lemma_positional_in_range_prefix(maxima, elems, elems.len());
        lemma_positional_error_stays(maxima, elems, elems.len() + 1, maxima.len());
    }
}

proof fn lemma_positional_in_range_prefix(maxima: Seq<u64>, elems: Seq<u64>, k: nat)
    requires
        k <= elems.len(),
        k <= maxima.len(),
        forall|q: int| 0 <= q < elems.len() && q < maxima.len() ==> elems[q] <= maxima[q],
    ensures
        positional_fold(maxima, elems, k) is Ok,
    decreases k,
{
    if k > 0 {
        lemma_positional_in_range_prefix(maxima, elems, (k - 1) as nat);
    }
}

} // verus!
