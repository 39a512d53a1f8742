//! The store as the pipeline and the query engine see it, and what holds of
//! every run against it.
//!
//! The engine is not part of this crate. What this crate relies on is
//! written down here: a store is a list of records in strict key order, a
//! put of the schema record places it first, an append is accepted exactly
//! when its key is greater than every key held, and a run that fails leaves
//! the store as it was. Over that model the laws of the system are proved
//! from the contracts of the functions that make up a run.

use crate::bigendian::{
    be_bytes, be_value, lemma_be_bytes_len, lemma_be_bytes_of_value, lemma_be_value_bound,
    lemma_span_values,
};
use crate::error::Error;
use crate::info::{described, entries_among, InfoView};
use crate::ingest::{accepted, WriteView};
use crate::key::{
    key_parts, lemma_key_order_is_time_order, lemma_key_round_trip, lemma_sentinel_is_least,
    lemma_sentinel_is_zeros, record_key, sentinel_key,
};
use crate::line::{fields_of, parts_of, LineView};
use crate::order::{
    bytes_at_most, bytes_less, lemma_less_asymmetric, lemma_less_irreflexive,
    lemma_less_transitive,
};
use crate::query::{record_read, RowView, Scan};
use crate::schema::{schema_of, total_width, Code};
use crate::timestamp::timestamp_of;
use crate::value::{
    codes_of, field_value, float_at, lemma_row_round_trip, parsed_row, parsed_values, row_bytes,
    row_of, Value,
};
use vstd::prelude::*;
use vstd::utf8::{decode_utf8, encode_utf8, valid_utf8};

verus! {

/// One stored record.
pub struct Entry {
    pub key: Seq<u8>,
    pub value: Seq<u8>,
}

/// One line of input together with what the floating-point parser made of
/// its value tokens.
pub struct Input {
    pub line: Seq<char>,
    pub floats: Seq<Option<Value>>,
}

/// Whether the keys of a store increase strictly from each record to the next.
pub open spec fn ordered(store: Seq<Entry>) -> bool {
    forall|i: int, j: int| 0 <= i < j < store.len() ==> bytes_less(store[i].key, store[j].key)
}

/// A store as this system makes it: in key order, every key long enough to
/// hold a timestamp, and the schema record first unless the store is empty.
pub open spec fn well_formed(store: Seq<Entry>) -> bool {
    &&& ordered(store)
    &&& forall|i: int| 0 <= i < store.len() ==> (#[trigger] store[i]).key.len() >= 8
    &&& store.len() > 0 ==> store[0].key == sentinel_key()
}

/// The type-code string under the schema key, if the store has a schema record.
pub open spec fn stored_code(store: Seq<Entry>) -> Option<Seq<u8>> {
    if store.len() > 0 && store[0].key == sentinel_key() {
        Some(store[0].value)
    } else {
        None
    }
}

/// Whether the engine accepts an append of `key`: only behind every key it holds.
pub open spec fn append_allowed(store: Seq<Entry>, key: Seq<u8>) -> bool {
    store.len() == 0 || bytes_less(store.last().key, key)
}

/// The store after a write: the schema record is put first where the write
/// carries one, then the record is appended, unless the engine refuses it.
pub open spec fn applied(store: Seq<Entry>, write: WriteView) -> Result<Seq<Entry>, Error> {
    let based = match write.schema {
        Some(code) => seq![Entry { key: sentinel_key(), value: code }] + store,
        None => store,
    };
    if append_allowed(based, write.key) {
        Ok(based.push(Entry { key: write.key, value: write.value }))
    } else {
        Err(Error::OutOfOrderInsertion)
    }
}

/// What a line asks of a store whose type-code string is `stored`.
pub open spec fn requested(stored: Option<Seq<u8>>, input: Input) -> Result<WriteView, Error> {
    match parts_of(fields_of(input.line)) {
        Err(e) => Err(e),
        Ok(parts) => accepted(stored, parts, input.floats),
    }
}

/// The store after one more line of a run, or the failure that ends the run.
pub open spec fn after_line(store: Seq<Entry>, input: Input) -> Result<Seq<Entry>, Error> {
    match requested(stored_code(store), input) {
        Err(e) => Err(e),
        Ok(write) => applied(store, write),
    }
}

/// The store after all lines of a run, or the first failure among them.
pub open spec fn after_lines(store: Seq<Entry>, inputs: Seq<Input>) -> Result<Seq<Entry>, Error>
    decreases inputs.len(),
{
    if inputs.len() == 0 {
        Ok(store)
    } else {
        match after_lines(store, inputs.drop_last()) {
            Err(e) => Err(e),
            Ok(reached) => after_line(reached, inputs.last()),
        }
    }
}

/// The store that a run leaves behind: all of its writes, or none of them.
pub open spec fn after_run(store: Seq<Entry>, inputs: Seq<Input>) -> Seq<Entry> {
    match after_lines(store, inputs) {
        Ok(reached) => reached,
        Err(_) => store,
    }
}

/// The data point that a line describes, if it describes one.
pub open spec fn point_of(input: Input) -> Option<RowView> {
    match parts_of(fields_of(input.line)) {
        Err(_) => None,
        Ok(parts) => match (timestamp_of(parts.timestamp), schema_of(encode_utf8(parts.code))) {
            (Some(nanos), Some(schema)) => match parsed_values(schema, parts.values, input.floats) {
                Ok(values) => Some(RowView { name: parts.name, nanos, values }),
                Err(_) => None,
            },
            _ => None,
        },
    }
}

/// A key is the key of the name and timestamp that it splits into.
pub proof fn lemma_key_parts_rebuild(key: Seq<u8>)
    requires
        key_parts(key) is Some,
    ensures
        key == record_key((key_parts(key)->0).0, (key_parts(key)->0).1),
{
    let split = key.len() - 8;
    let front = key.subrange(0, split);
    let back = key.subrange(split, key.len() as int);
    vstd::utf8::decode_utf8_encode_utf8(front);
    lemma_be_bytes_of_value(back);
    lemma_be_value_bound(back);
    lemma_span_values();
    assert(key =~= front + back);
}

/// An accepted line leaves a well-formed store well formed, with the
/// line's record behind all others, under the line's type-code string.
pub proof fn lemma_line_extends(store: Seq<Entry>, input: Input)
    requires
        well_formed(store),
        after_line(store, input) is Ok,
    ensures
        ({
            let reached = after_line(store, input)->Ok_0;
            let write = requested(stored_code(store), input)->Ok_0;
            let parts = parts_of(fields_of(input.line))->Ok_0;
            &&& well_formed(reached)
            &&& reached.len() > 0
            &&& reached.last() == Entry { key: write.key, value: write.value }
            &&& stored_code(reached) == Some(encode_utf8(parts.code))
            &&& store.len() > 0 ==> reached == store.push(reached.last()) && stored_code(reached)
                == stored_code(store)
            &&& store.len() == 0 ==> reached.len() == 2
        }),
{
    let write = requested(stored_code(store), input)->Ok_0;
    let reached = after_line(store, input)->Ok_0;
    let parts = parts_of(fields_of(input.line))->Ok_0;
    let nanos = timestamp_of(parts.timestamp)->0;
    lemma_be_bytes_len(nanos as nat, 8);
    assert(write.key.len() >= 8);
    if store.len() == 0 {
        let first = Entry { key: sentinel_key(), value: write.schema->0 };
        assert(seq![first] + store =~= seq![first]);
        assert(reached =~= seq![first, reached.last()]);
        lemma_sentinel_is_zeros();
    } else {
        assert forall|i: int, j: int| 0 <= i < j < reached.len() implies bytes_less(
            reached[i].key,
            reached[j].key,
        ) by {
            if j == reached.len() - 1 && i < j - 1 {
                lemma_less_transitive(reached[i].key, store.last().key, write.key);
            }
        }
    }
}

/// A run that gets through leaves a well-formed store well formed. It adds
/// one record per line, and the schema record where the store was empty,
/// and it leaves every record that was there before where it was.
pub proof fn lemma_run_extends(store: Seq<Entry>, inputs: Seq<Input>)
    requires
        well_formed(store),
        after_lines(store, inputs) is Ok,
    ensures
        ({
            let reached = after_lines(store, inputs)->Ok_0;
            &&& well_formed(reached)
            &&& store.len() > 0 ==> reached.len() == store.len() + inputs.len()
                && reached.subrange(0, store.len() as int) == store && stored_code(reached)
                == stored_code(store)
            &&& store.len() == 0 && inputs.len() > 0 ==> reached.len() == inputs.len() + 1
            &&& store.len() == 0 && inputs.len() == 0 ==> reached.len() == 0
        }),
    decreases inputs.len(),
{
    if inputs.len() > 0 {
        let front = inputs.drop_last();
        let middle = after_lines(store, front)->Ok_0;
        lemma_run_extends(store, front);
        lemma_line_extends(middle, inputs.last());
        let reached = after_lines(store, inputs)->Ok_0;
        if store.len() > 0 {
            assert(reached.subrange(0, store.len() as int) =~= middle.subrange(
                0,
                store.len() as int,
            ));
        }
    } else {
        assert(store.subrange(0, store.len() as int) =~= store);
    }
}

/// The first failure of a run is the failure of the run.
pub proof fn lemma_failure_is_final(store: Seq<Entry>, inputs: Seq<Input>, k: int)
    requires
        0 <= k <= inputs.len(),
        after_lines(store, inputs.take(k)) is Err,
    ensures
        after_lines(store, inputs) == after_lines(store, inputs.take(k)),
    decreases inputs.len(),
{
    if k < inputs.len() {
        let front = inputs.drop_last();
        assert(front.take(k) =~= inputs.take(k));
        lemma_failure_is_final(store, front, k);
    } else {
        assert(inputs.take(k) =~= inputs);
    }
}

/// A run that gets through got through each of its lines.
pub proof fn lemma_prefix_of_run(store: Seq<Entry>, inputs: Seq<Input>, k: int)
    requires
        0 <= k <= inputs.len(),
        after_lines(store, inputs) is Ok,
    ensures
        after_lines(store, inputs.take(k)) is Ok,
{
    if after_lines(store, inputs.take(k)) is Err {
        lemma_failure_is_final(store, inputs, k);
    }
}

/// Schema immutability. Once a store has a schema, a run that reaches a
/// line with another type-code string fails there with `SchemaMismatch`,
/// and the store stays as it was: same schema, same records.
pub proof fn law_schema_is_immutable(store: Seq<Entry>, inputs: Seq<Input>, k: int)
    requires
        well_formed(store),
        store.len() > 0,
        0 <= k < inputs.len(),
        after_lines(store, inputs.take(k)) is Ok,
        parts_of(fields_of(inputs[k].line)) is Ok,
        Some(encode_utf8(parts_of(fields_of(inputs[k].line))->Ok_0.code)) != stored_code(store),
    ensures
        after_lines(store, inputs) == Err::<Seq<Entry>, Error>(Error::SchemaMismatch),
        after_run(store, inputs) == store,
{
    let front = inputs.take(k);
    let upto = inputs.take(k + 1);
    lemma_run_extends(store, front);
    assert(upto.drop_last() =~= front);
    assert(upto.last() == inputs[k]);
    lemma_failure_is_final(store, inputs, k + 1);
}

/// A run that gets through on a store with a schema never changes it:
/// every line carries the stored type-code string, and the schema record
/// and all earlier records are still in place afterwards.
pub proof fn law_schema_is_kept(store: Seq<Entry>, inputs: Seq<Input>, k: int)
    requires
        well_formed(store),
        store.len() > 0,
        after_lines(store, inputs) is Ok,
        0 <= k < inputs.len(),
    ensures
        stored_code(after_run(store, inputs)) == stored_code(store),
        after_run(store, inputs).subrange(0, store.len() as int) == store,
        parts_of(fields_of(inputs[k].line)) matches Ok(parts) && Some(encode_utf8(parts.code))
            == stored_code(store),
{
    lemma_run_extends(store, inputs);
    lemma_prefix_of_run(store, inputs, k);
    lemma_prefix_of_run(store, inputs, k + 1);
    let front = inputs.take(k);
    let upto = inputs.take(k + 1);
    lemma_run_extends(store, front);
    assert(upto.drop_last() =~= front);
    assert(upto.last() == inputs[k]);
}

/// Append-order enforcement. Where the store, as the run has brought it
/// so far, holds a point of a series, a line for the same series with a
/// timestamp that is not later fails the run with `OutOfOrderInsertion`,
/// and the store stays as it was.
pub proof fn law_append_order(
    store: Seq<Entry>,
    inputs: Seq<Input>,
    k: int,
    held: int,
    name: Seq<char>,
    earlier: u64,
    later: u64,
)
    requires
        well_formed(store),
        0 <= k < inputs.len(),
        after_lines(store, inputs.take(k)) is Ok,
        0 <= held < after_lines(store, inputs.take(k))->Ok_0.len(),
        after_lines(store, inputs.take(k))->Ok_0[held].key == record_key(name, earlier),
        later <= earlier,
        requested(stored_code(after_lines(store, inputs.take(k))->Ok_0), inputs[k]) is Ok,
        requested(stored_code(after_lines(store, inputs.take(k))->Ok_0), inputs[k])->Ok_0.key
            == record_key(name, later),
    ensures
        after_lines(store, inputs) == Err::<Seq<Entry>, Error>(Error::OutOfOrderInsertion),
        after_run(store, inputs) == store,
{
    let front = inputs.take(k);
    let upto = inputs.take(k + 1);
    let reached = after_lines(store, front)->Ok_0;
    let write = requested(stored_code(reached), inputs[k])->Ok_0;
    lemma_run_extends(store, front);
    assert(upto.drop_last() =~= front);
    assert(upto.last() == inputs[k]);
    lemma_key_order_is_time_order(name, later, earlier);
    // The record held sorts at or before the last record of the store.
    let last = reached.last().key;
    if held < reached.len() - 1 {
        assert(bytes_less(reached[held].key, last));
    }
    assert(bytes_at_most(write.key, last)) by {
        if write.key != reached[held].key && reached[held].key != last {
            lemma_less_transitive(write.key, reached[held].key, last);
        }
    }
    assert(!bytes_less(last, write.key)) by {
        lemma_less_asymmetric(last, write.key);
        lemma_less_irreflexive(last);
    }
    assert(write.schema is None);
    assert(after_line(reached, inputs[k]) == Err::<Seq<Entry>, Error>(
        Error::OutOfOrderInsertion,
    ));
    lemma_failure_is_final(store, inputs, k + 1);
}

/// Round trip. After a run that got through, the record of each line
/// stands where the line stood in the run, and a read without a filter
/// decodes it to the very point that the line described: same name, same
/// timestamp, same values.
pub proof fn law_round_trip(store: Seq<Entry>, inputs: Seq<Input>, k: int)
    requires
        well_formed(store),
        after_lines(store, inputs) is Ok,
        0 <= k < inputs.len(),
    ensures
        ({
            let reached = after_run(store, inputs);
            let at = reached.len() - inputs.len() + k;
            &&& well_formed(reached)
            &&& 0 < at < reached.len()
            &&& point_of(inputs[k]) is Some
            &&& stored_code(reached) is Some
            &&& schema_of(stored_code(reached)->0) is Some
            &&& record_read(
                Scan::All,
                schema_of(stored_code(reached)->0)->0,
                reached[at].key,
                reached[at].value,
            ) == Ok::<Option<RowView>, Error>(point_of(inputs[k]))
        }),
{
    let reached = after_run(store, inputs);
    let front = inputs.take(k);
    let upto = inputs.take(k + 1);
    lemma_prefix_of_run(store, inputs, k);
    lemma_prefix_of_run(store, inputs, k + 1);
    let before = after_lines(store, front)->Ok_0;
    let after = after_lines(store, upto)->Ok_0;
    assert(upto.drop_last() =~= front);
    assert(upto.last() == inputs[k]);
    lemma_run_extends(store, front);
    lemma_run_extends(store, upto);
    lemma_line_extends(before, inputs[k]);
    lemma_run_extends(store, inputs);
    lemma_rest_of_run(store, inputs, k + 1);
    // The record of line k is the last one after k + 1 lines, and later
    // lines leave it in place.
    let at = reached.len() - inputs.len() + k;
    assert(at == after.len() - 1);
    assert(reached.subrange(0, after.len() as int)[at] == reached[at]);
    let parts = parts_of(fields_of(inputs[k].line))->Ok_0;
    let code = encode_utf8(parts.code);
    let schema = schema_of(code)->0;
    let nanos = timestamp_of(parts.timestamp)->0;
    let values = parsed_values(schema, parts.values, inputs[k].floats)->Ok_0;
    assert(stored_code(after) == Some(code));
    assert(stored_code(reached) == Some(code));
    lemma_key_round_trip(parts.name, nanos);
    lemma_parsed_codes(schema, parts.values, inputs[k].floats);
    lemma_row_round_trip(values, Seq::empty());
    assert(row_bytes(values) + Seq::<u8>::empty() =~= row_bytes(values));
}

/// What a run has reached after some of its lines is still there, record
/// for record, when it has got through all of them.
pub proof fn lemma_rest_of_run(store: Seq<Entry>, inputs: Seq<Input>, k: int)
    requires
        well_formed(store),
        after_lines(store, inputs) is Ok,
        0 < k <= inputs.len(),
    ensures
        after_lines(store, inputs.take(k)) is Ok,
        ({
            let middle = after_lines(store, inputs.take(k))->Ok_0;
            let reached = after_lines(store, inputs)->Ok_0;
            &&& middle.len() + inputs.len() - k == reached.len()
            &&& reached.subrange(0, middle.len() as int) == middle
            &&& stored_code(reached) == stored_code(middle)
        }),
    decreases inputs.len(),
{
    lemma_prefix_of_run(store, inputs, k);
    if k < inputs.len() {
        let front = inputs.drop_last();
        assert(front.take(k) =~= inputs.take(k));
        lemma_rest_of_run(store, front, k);
        let middle = after_lines(store, inputs.take(k))->Ok_0;
        let almost = after_lines(store, front)->Ok_0;
        let reached = after_lines(store, inputs)->Ok_0;
        lemma_run_extends(store, front);
        lemma_run_extends(store, inputs.take(k));
        lemma_line_extends(almost, inputs.last());
        assert(reached.subrange(0, middle.len() as int) =~= almost.subrange(
            0,
            middle.len() as int,
        ));
    } else {
        assert(inputs.take(k) =~= inputs);
        let reached = after_lines(store, inputs)->Ok_0;
        assert(reached.subrange(0, reached.len() as int) =~= reached);
    }
}

/// A row parsed under a schema has the column types of that schema.
pub proof fn lemma_parsed_codes(
    schema: Seq<Code>,
    tokens: Seq<Seq<char>>,
    floats: Seq<Option<Value>>,
)
    requires
        parsed_row(schema, tokens, floats) is Ok,
    ensures
        codes_of(parsed_row(schema, tokens, floats)->Ok_0) == schema,
    decreases schema.len(),
{
    let values = parsed_row(schema, tokens, floats)->Ok_0;
    if schema.len() > 0 {
        lemma_parsed_codes(schema.drop_last(), tokens, floats);
        let front = parsed_row(schema.drop_last(), tokens, floats)->Ok_0;
        assert(codes_of(front) == schema.drop_last());
        assert(values == front.push(values.last()));
        assert(codes_of(values) =~= schema) by {
            assert forall|i: int| 0 <= i < schema.len() implies codes_of(values)[i]
                == schema[i] by {
                if i < schema.len() - 1 {
                    assert(codes_of(front)[i] == schema.drop_last()[i]);
                }
            }
        }
    } else {
        assert(codes_of(values) =~= schema);
    }
}

/// Metadata correctness. A store that was never written reports no schema
/// and no entries. After a run of `n` lines that got through, the store
/// reports the type-code string of those lines and `n` entries more than
/// it held before.
pub proof fn law_metadata(store: Seq<Entry>, inputs: Seq<Input>)
    requires
        well_formed(store),
        after_lines(store, inputs) is Ok,
        0 < inputs.len(),
        store.len() + inputs.len() < u64::MAX,
    ensures
        described(stored_code(Seq::empty()), 0) == Ok::<InfoView, Error>(
            InfoView { schema: None, entries: 0 },
        ),
        ({
            let reached = after_run(store, inputs);
            let parts = parts_of(fields_of(inputs[0].line))->Ok_0;
            described(stored_code(reached), reached.len() as u64) == Ok::<InfoView, Error>(
                InfoView {
                    schema: Some(parts.code),
                    entries: (entries_among(store.len() as u64) + inputs.len()) as u64,
                },
            )
        }),
{
    let reached = after_run(store, inputs);
    lemma_run_extends(store, inputs);
    lemma_rest_of_run(store, inputs, 1);
    let first = inputs.take(1);
    assert(first.drop_last() =~= Seq::<Input>::empty());
    assert(first.last() == inputs[0]);
    lemma_line_extends(store, inputs[0]);
    let parts = parts_of(fields_of(inputs[0].line))->Ok_0;
    vstd::utf8::encode_utf8_valid_utf8(parts.code);
    vstd::utf8::encode_utf8_decode_utf8(parts.code);
}

/// The key that the engine compares the key of line `k` with: the key of
/// the line before it, or the greatest key of the store, or the schema key
/// where the store is empty.
pub open spec fn key_before(store: Seq<Entry>, code: Seq<u8>, inputs: Seq<Input>, k: int) -> Seq<
    u8,
> {
    if k > 0 {
        requested(Some(code), inputs[k - 1])->Ok_0.key
    } else if store.len() > 0 {
        store.last().key
    } else {
        sentinel_key()
    }
}

/// A run gets through when each of its lines is valid under the type-code
/// string of the store, or under one and the same where the store has none,
/// and the key of each line is greater than the key before it.
pub proof fn law_ordered_lines_get_through(store: Seq<Entry>, code: Seq<u8>, inputs: Seq<Input>)
    requires
        well_formed(store),
        store.len() > 0 ==> stored_code(store) == Some(code),
        forall|k: int|
            0 <= k < inputs.len() ==> (#[trigger] requested(Some(code), inputs[k])) is Ok,
        forall|k: int|
            0 <= k < inputs.len() ==> bytes_less(
                #[trigger] key_before(store, code, inputs, k),
                requested(Some(code), inputs[k])->Ok_0.key,
            ),
    ensures
        after_lines(store, inputs) is Ok,
    decreases inputs.len(),
{
    if inputs.len() > 0 {
        let front = inputs.drop_last();
        let k = inputs.len() - 1;
        assert forall|i: int| 0 <= i < front.len() implies bytes_less(
            #[trigger] key_before(store, code, front, i),
            requested(Some(code), front[i])->Ok_0.key,
        ) by {
            assert(key_before(store, code, front, i) == key_before(store, code, inputs, i));
        }
        assert forall|i: int| 0 <= i < front.len() implies (#[trigger] requested(
            Some(code),
            front[i],
        )) is Ok by {
            assert(front[i] == inputs[i]);
        }
        law_ordered_lines_get_through(store, code, front);
        let reached = after_lines(store, front)->Ok_0;
        lemma_run_extends(store, front);
        let write = requested(Some(code), inputs[k])->Ok_0;
        assert(bytes_less(key_before(store, code, inputs, k), write.key));
        if k > 0 {
            lemma_prefix_of_run(store, front, k - 1);
            assert(front.take(k - 1) =~= front.drop_last());
            lemma_run_extends(store, front.drop_last());
            lemma_line_extends(after_lines(store, front.drop_last())->Ok_0, front.last());
        }
    }
}

/// Filter correctness. Whatever the filter, a record whose name the scan
/// keeps lies within the span that the scan visits: a read returns exactly
/// the points whose series name passes the filter. For a literal filter
/// these are the points of the series of that name.
pub proof fn law_filter(filter: Option<&str>, key: Seq<u8>)
    requires
        key_parts(key) is Some,
        key != sentinel_key(),
        Scan::spec_plan(filter).keeps((key_parts(key)->0).0) == Some(true),
    ensures
        Scan::spec_plan(filter).visits(key),
        filter is Some && crate::query::is_literal(filter->0@) ==> forall|name: Seq<char>|
            #[trigger] Scan::spec_plan(filter).keeps(name) == Some(name == filter->0@),
{
    let scan = Scan::spec_plan(filter);
    let (name, nanos) = key_parts(key)->0;
    lemma_key_parts_rebuild(key);
    match scan {
        Scan::Series(series) => {
            crate::query::lemma_series_is_visited(series, nanos);
        },
        _ => {
            crate::query::lemma_all_is_visited(scan, key);
        },
    }
}

} // verus!
