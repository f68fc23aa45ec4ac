//! Messages between a master and its workers as the fields of a message.
//!
//! Every field of a record stands in a fixed place, after the discriminant of the message.

use vstd::bytes::{lemma_auto_spec_u64_to_from_le_bytes, spec_u64_to_le_bytes};
use vstd::prelude::*;

use crate::layout::{
    copy_bytes, even_rows, fields_view, lemma_bytes, lemma_choice, lemma_flag, lemma_list,
    lemma_number, lemma_tag, named_rows, push_bytes, push_choice, push_flag, push_list, push_number,
    put_bytes, put_choice, put_flag, put_list, put_number, rows_view, take_bytes, take_choice,
    take_flag, take_list, take_named, take_number, take_tag, Choice, Cursor,
};
use crate::messages::{
    client_read, event_read, holds_client, holds_server, server_read, validate_worker_protocol,
    AttrSetRecord, ClientRecord, ClientView, EvalErrorRecord, EventRecord, ServerMessage,
    ServerRecord, SetupRecord, StatusRecord,
};
use crate::wire::{
    args_read, config_read, derivation_read, derivation_texts_read, holds_arg, holds_derivation,
    holds_output, input_read, inputs_read, list_opt_read, meta_read, opt_read, outputs_read,
    pairs_read, texts_read, AutoArgRecord, AutoArgValueRecord, DerivationRecord, InputDrvRecord,
    InputRecord, OutputPathRecord, OutputRecord, PairRecord, TextListOptRecord, TextOptRecord,
    WireError, WireFault, WorkerConfigRecord, WORKER_PROTOCOL_VERSION,
};

verus! {

/// An optional text as a union.
pub open spec fn opt_choice(record: TextOptRecord) -> Choice {
    match record {
        TextOptRecord::Absent => Choice { tag: 0, content: Seq::empty() },
        TextOptRecord::Present(b) => Choice { tag: 1, content: b@ },
        TextOptRecord::Unknown(n) => Choice { tag: n, content: Seq::empty() },
    }
}

/// Whether what the record calls unknown is so.
pub open spec fn opt_sound(record: TextOptRecord) -> bool {
    record matches TextOptRecord::Unknown(n) ==> n >= 2
}

fn opt_parts(record: &TextOptRecord) -> (r: (u16, Vec<u8>))
    ensures
        (Choice { tag: r.0, content: r.1@ }) == opt_choice(*record),
{
    match record {
        TextOptRecord::Absent => (0, Vec::new()),
        TextOptRecord::Present(b) => (1, copy_bytes(b)),
        TextOptRecord::Unknown(n) => (*n, Vec::new()),
    }
}

fn opt_of(tag: u16, content: Vec<u8>) -> (r: TextOptRecord)
    requires
        (Choice { tag, content: content@ }).fits(1, 2),
    ensures
        opt_choice(r) =~= (Choice { tag, content: content@ }),
        opt_sound(r),
{
    match tag {
        0 => TextOptRecord::Absent,
        1 => TextOptRecord::Present(content),
        n => TextOptRecord::Unknown(n),
    }
}

/// An input as a union.
pub open spec fn input_choice(record: InputRecord) -> Choice {
    match record {
        InputRecord::Flake(b) => Choice { tag: 0, content: b@ },
        InputRecord::Expr(b) => Choice { tag: 1, content: b@ },
        InputRecord::File(b) => Choice { tag: 2, content: b@ },
        InputRecord::Unknown(n) => Choice { tag: n, content: Seq::empty() },
    }
}

/// Whether what the record calls unknown is so.
pub open spec fn input_sound(record: InputRecord) -> bool {
    record matches InputRecord::Unknown(n) ==> n >= 3
}

fn input_parts(record: &InputRecord) -> (r: (u16, Vec<u8>))
    ensures
        (Choice { tag: r.0, content: r.1@ }) == input_choice(*record),
{
    match record {
        InputRecord::Flake(b) => (0, copy_bytes(b)),
        InputRecord::Expr(b) => (1, copy_bytes(b)),
        InputRecord::File(b) => (2, copy_bytes(b)),
        InputRecord::Unknown(n) => (*n, Vec::new()),
    }
}

fn input_of(tag: u16, content: Vec<u8>) -> (r: InputRecord)
    requires
        (Choice { tag, content: content@ }).fits(0, 3),
    ensures
        input_choice(r) =~= (Choice { tag, content: content@ }),
        input_sound(r),
{
    match tag {
        0 => InputRecord::Flake(content),
        1 => InputRecord::Expr(content),
        2 => InputRecord::File(content),
        n => InputRecord::Unknown(n),
    }
}

/// The value of an argument as a union.
pub open spec fn arg_choice(record: AutoArgValueRecord) -> Choice {
    match record {
        AutoArgValueRecord::Expr(b) => Choice { tag: 0, content: b@ },
        AutoArgValueRecord::Str(b) => Choice { tag: 1, content: b@ },
        AutoArgValueRecord::Unknown(n) => Choice { tag: n, content: Seq::empty() },
    }
}

/// Whether what the record calls unknown is so.
pub open spec fn arg_sound(record: AutoArgValueRecord) -> bool {
    record matches AutoArgValueRecord::Unknown(n) ==> n >= 2
}

fn arg_parts(record: &AutoArgValueRecord) -> (r: (u16, Vec<u8>))
    ensures
        (Choice { tag: r.0, content: r.1@ }) == arg_choice(*record),
{
    match record {
        AutoArgValueRecord::Expr(b) => (0, copy_bytes(b)),
        AutoArgValueRecord::Str(b) => (1, copy_bytes(b)),
        AutoArgValueRecord::Unknown(n) => (*n, Vec::new()),
    }
}

fn arg_of(tag: u16, content: Vec<u8>) -> (r: AutoArgValueRecord)
    requires
        (Choice { tag, content: content@ }).fits(0, 2),
    ensures
        arg_choice(r) =~= (Choice { tag, content: content@ }),
        arg_sound(r),
{
    match tag {
        0 => AutoArgValueRecord::Expr(content),
        1 => AutoArgValueRecord::Str(content),
        n => AutoArgValueRecord::Unknown(n),
    }
}

/// The path of an output as a union.
pub open spec fn path_choice(record: OutputPathRecord) -> Choice {
    match record {
        OutputPathRecord::Absent => Choice { tag: 0, content: Seq::empty() },
        OutputPathRecord::Path(b) => Choice { tag: 1, content: b@ },
        OutputPathRecord::Unknown(n) => Choice { tag: n, content: Seq::empty() },
    }
}

/// Whether what the record calls unknown is so.
pub open spec fn path_sound(record: OutputPathRecord) -> bool {
    record matches OutputPathRecord::Unknown(n) ==> n >= 2
}

fn path_parts(record: &OutputPathRecord) -> (r: (u16, Vec<u8>))
    ensures
        (Choice { tag: r.0, content: r.1@ }) == path_choice(*record),
{
    match record {
        OutputPathRecord::Absent => (0, Vec::new()),
        OutputPathRecord::Path(b) => (1, copy_bytes(b)),
        OutputPathRecord::Unknown(n) => (*n, Vec::new()),
    }
}

fn path_of(tag: u16, content: Vec<u8>) -> (r: OutputPathRecord)
    requires
        (Choice { tag, content: content@ }).fits(1, 2),
    ensures
        path_choice(r) =~= (Choice { tag, content: content@ }),
        path_sound(r),
{
    match tag {
        0 => OutputPathRecord::Absent,
        1 => OutputPathRecord::Path(content),
        n => OutputPathRecord::Unknown(n),
    }
}

/// Texts as a list.
pub open spec fn text_rows(records: Seq<Vec<u8>>) -> Seq<Seq<Seq<u8>>> {
    records.map_values(|r: Vec<u8>| seq![r@])
}

fn rows_of_texts(records: &Vec<Vec<u8>>) -> (r: Vec<Vec<Vec<u8>>>)
    ensures
        rows_view(r@) == text_rows(records@),
{
    let mut out: Vec<Vec<Vec<u8>>> = Vec::new();
    let mut i: usize = 0;
    while i < records.len()
        invariant
            i <= records.len(),
            out.len() == i,
            forall|j: int|
                0 <= j < i ==> fields_view(#[trigger] out@[j]@) == text_rows(records@)[j],
        decreases records.len() - i,
    {
        let record = &records[i];
        let mut row: Vec<Vec<u8>> = Vec::new();
        row.push(copy_bytes(record));
        proof {
            assert(fields_view(row@) =~= seq![record@]);
        }
        out.push(row);
        i += 1;
    }
    proof {
        assert(rows_view(out@) =~= text_rows(records@));
    }
    out
}

fn texts_of(rows: &Vec<Vec<Vec<u8>>>) -> (r: Vec<Vec<u8>>)
    requires
        even_rows(rows_view(rows@), 1),
    ensures
        text_rows(r@) == rows_view(rows@),
{
    let mut out: Vec<Vec<u8>> = Vec::new();
    let mut i: usize = 0;
    while i < rows.len()
        invariant
            i <= rows.len(),
            out.len() == i,
            even_rows(rows_view(rows@), 1),
            forall|j: int| 0 <= j < i ==> text_rows(out@)[j] == #[trigger] rows_view(rows@)[j],
        decreases rows.len() - i,
    {
        let row = &rows[i];
        let ghost before = out@;
        proof {
            assert(rows_view(rows@)[i as int] == fields_view(row@));
        }
        let record = copy_bytes(&row[0]);
        out.push(record);
        proof {
            assert(text_rows(out@)[i as int] =~= rows_view(rows@)[i as int]);
            assert forall|j: int| 0 <= j < i implies text_rows(out@)[j] == #[trigger] rows_view(
                rows@,
            )[j] by {
                assert(text_rows(out@)[j] == text_rows(before)[j]);
            }
        }
        i += 1;
    }
    proof {
        assert(text_rows(out@) =~= rows_view(rows@));
    }
    out
}

/// Pairs of texts as a list.
pub open spec fn pair_rows(records: Seq<PairRecord>) -> Seq<Seq<Seq<u8>>> {
    records.map_values(|r: PairRecord| seq![r.key@, r.value@])
}

fn rows_of_pairs(records: &Vec<PairRecord>) -> (r: Vec<Vec<Vec<u8>>>)
    ensures
        rows_view(r@) == pair_rows(records@),
{
    let mut out: Vec<Vec<Vec<u8>>> = Vec::new();
    let mut i: usize = 0;
    while i < records.len()
        invariant
            i <= records.len(),
            out.len() == i,
            forall|j: int|
                0 <= j < i ==> fields_view(#[trigger] out@[j]@) == pair_rows(records@)[j],
        decreases records.len() - i,
    {
        let record = &records[i];
        let mut row: Vec<Vec<u8>> = Vec::new();
        row.push(copy_bytes(&record.key));
        row.push(copy_bytes(&record.value));
        proof {
            assert(fields_view(row@) =~= seq![record.key@, record.value@]);
        }
        out.push(row);
        i += 1;
    }
    proof {
        assert(rows_view(out@) =~= pair_rows(records@));
    }
    out
}

fn pairs_of(rows: &Vec<Vec<Vec<u8>>>) -> (r: Vec<PairRecord>)
    requires
        even_rows(rows_view(rows@), 2),
    ensures
        pair_rows(r@) == rows_view(rows@),
{
    let mut out: Vec<PairRecord> = Vec::new();
    let mut i: usize = 0;
    while i < rows.len()
        invariant
            i <= rows.len(),
            out.len() == i,
            even_rows(rows_view(rows@), 2),
            forall|j: int| 0 <= j < i ==> pair_rows(out@)[j] == #[trigger] rows_view(rows@)[j],
        decreases rows.len() - i,
    {
        let row = &rows[i];
        let ghost before = out@;
        proof {
            assert(rows_view(rows@)[i as int] == fields_view(row@));
        }
        let record = PairRecord { key: copy_bytes(&row[0]), value: copy_bytes(&row[1]) };
        out.push(record);
        proof {
            assert(pair_rows(out@)[i as int] =~= rows_view(rows@)[i as int]);
            assert forall|j: int| 0 <= j < i implies pair_rows(out@)[j] == #[trigger] rows_view(
                rows@,
            )[j] by {
                assert(pair_rows(out@)[j] == pair_rows(before)[j]);
            }
        }
        i += 1;
    }
    proof {
        assert(pair_rows(out@) =~= rows_view(rows@));
    }
    out
}

/// Input derivations as a list.
pub open spec fn drv_rows(records: Seq<InputDrvRecord>) -> Seq<Seq<Seq<u8>>> {
    records.map_values(|r: InputDrvRecord| seq![r.drv_path@, r.value_json@])
}

fn rows_of_drvs(records: &Vec<InputDrvRecord>) -> (r: Vec<Vec<Vec<u8>>>)
    ensures
        rows_view(r@) == drv_rows(records@),
{
    let mut out: Vec<Vec<Vec<u8>>> = Vec::new();
    let mut i: usize = 0;
    while i < records.len()
        invariant
            i <= records.len(),
            out.len() == i,
            forall|j: int|
                0 <= j < i ==> fields_view(#[trigger] out@[j]@) == drv_rows(records@)[j],
        decreases records.len() - i,
    {
        let record = &records[i];
        let mut row: Vec<Vec<u8>> = Vec::new();
        row.push(copy_bytes(&record.drv_path));
        row.push(copy_bytes(&record.value_json));
        proof {
            assert(fields_view(row@) =~= seq![record.drv_path@, record.value_json@]);
        }
        out.push(row);
        i += 1;
    }
    proof {
        assert(rows_view(out@) =~= drv_rows(records@));
    }
    out
}

fn drvs_of(rows: &Vec<Vec<Vec<u8>>>) -> (r: Vec<InputDrvRecord>)
    requires
        even_rows(rows_view(rows@), 2),
    ensures
        drv_rows(r@) == rows_view(rows@),
{
    let mut out: Vec<InputDrvRecord> = Vec::new();
    let mut i: usize = 0;
    while i < rows.len()
        invariant
            i <= rows.len(),
            out.len() == i,
            even_rows(rows_view(rows@), 2),
            forall|j: int| 0 <= j < i ==> drv_rows(out@)[j] == #[trigger] rows_view(rows@)[j],
        decreases rows.len() - i,
    {
        let row = &rows[i];
        let ghost before = out@;
        proof {
            assert(rows_view(rows@)[i as int] == fields_view(row@));
        }
        let record = InputDrvRecord {
            drv_path: copy_bytes(&row[0]),
            value_json: copy_bytes(&row[1]),
        };
        out.push(record);
        proof {
            assert(drv_rows(out@)[i as int] =~= rows_view(rows@)[i as int]);
            assert forall|j: int| 0 <= j < i implies drv_rows(out@)[j] == #[trigger] rows_view(
                rows@,
            )[j] by {
                assert(drv_rows(out@)[j] == drv_rows(before)[j]);
            }
        }
        i += 1;
    }
    proof {
        assert(drv_rows(out@) =~= rows_view(rows@));
    }
    out
}

/// A name and a union, as the fields of an item.
pub open spec fn named_row(name: Seq<u8>, c: Choice) -> Seq<Seq<u8>> {
    put_bytes(name, put_choice(c, Seq::empty()))
}

fn push_named(name: &Vec<u8>, tag: u16, content: &Vec<u8>) -> (r: Vec<Vec<u8>>)
    ensures
        fields_view(r@) == named_row(name@, Choice { tag, content: content@ }),
{
    let mut row: Vec<Vec<u8>> = Vec::new();
    push_bytes(&mut row, name);
    push_choice(&mut row, tag, content);
    proof {
        let none: Seq<Seq<u8>> = Seq::empty();
        assert(fields_view(row@) + none =~= fields_view(row@));
        let whole = named_row(name@, Choice { tag, content: content@ });
        assert(fields_view(Seq::<Vec<u8>>::empty()) + whole =~= whole);
    }
    row
}

proof fn lemma_named_row(name: Seq<u8>, c: Choice, low: u16, high: u16)
    requires
        c.fits(low, high),
    ensures
        named_row(name, c).len() == 3,
        take_choice(named_row(name, c).skip(1), low, high) is Some,
{
    lemma_choice(c, low, high, Seq::empty());
    assert(named_row(name, c).skip(1) =~= put_choice(c, Seq::empty()));
}

proof fn lemma_row_named(row: Seq<Seq<u8>>, c: Choice, rest: Seq<Seq<u8>>, low: u16, high: u16)
    requires
        row.len() == 3,
        take_choice(row.skip(1), low, high) == Some((c, rest)),
    ensures
        named_row(row[0], c) == row,
{
    lemma_auto_spec_u64_to_from_le_bytes();
    assert(row.skip(1)[0] == row[1]);
    assert(row.skip(1).skip(1)[0] == row[2]);
    assert(c.tag as u64 == vstd::bytes::spec_u64_from_le_bytes(row[1]));
    assert(spec_u64_to_le_bytes(c.tag as u64) =~= row[1]);
    assert(named_row(row[0], c) =~= row);
}

/// Arguments as a list.
pub open spec fn arg_rows(records: Seq<AutoArgRecord>) -> Seq<Seq<Seq<u8>>> {
    records.map_values(|r: AutoArgRecord| named_row(r.name@, arg_choice(r.value)))
}

fn rows_of_args(records: &Vec<AutoArgRecord>) -> (r: Vec<Vec<Vec<u8>>>)
    ensures
        rows_view(r@) == arg_rows(records@),
{
    let mut out: Vec<Vec<Vec<u8>>> = Vec::new();
    let mut i: usize = 0;
    while i < records.len()
        invariant
            i <= records.len(),
            out.len() == i,
            forall|j: int|
                0 <= j < i ==> fields_view(#[trigger] out@[j]@) == arg_rows(records@)[j],
        decreases records.len() - i,
    {
        let record = &records[i];
        let (tag, content): (u16, Vec<u8>) = arg_parts(&record.value);
        let row = push_named(&record.name, tag, &content);
        out.push(row);
        i += 1;
    }
    proof {
        assert(rows_view(out@) =~= arg_rows(records@));
    }
    out
}

/// Whether what the records call unknown is so.
pub open spec fn args_sound(records: Seq<AutoArgRecord>) -> bool {
    forall|i: int| 0 <= i < records.len() ==> arg_sound((#[trigger] records[i]).value)
}

fn args_of(rows: &Vec<Vec<Vec<u8>>>) -> (r: Result<Vec<AutoArgRecord>, WireError>)
    requires
        even_rows(rows_view(rows@), 3),
    ensures
        match r {
            Ok(records) => {
                &&& named_rows(rows_view(rows@), 0, 2)
                &&& arg_rows(records@) == rows_view(rows@)
                &&& args_sound(records@)
            },
            Err(e) => !named_rows(rows_view(rows@), 0, 2) && e@ == WireFault::Malformed,
        },
{
    let mut out: Vec<AutoArgRecord> = Vec::new();
    let mut i: usize = 0;
    while i < rows.len()
        invariant
            i <= rows.len(),
            out.len() == i,
            even_rows(rows_view(rows@), 3),
            args_sound(out@),
            forall|j: int|
                0 <= j < i ==> take_choice((#[trigger] rows_view(rows@)[j]).skip(1), 0, 2) is Some,
            forall|j: int| 0 <= j < i ==> arg_rows(out@)[j] == #[trigger] rows_view(rows@)[j],
        decreases rows.len() - i,
    {
        let ghost before = out@;
        let ghost row = rows_view(rows@)[i as int];
        let mut c = Cursor { fields: &rows[i], at: 0 };
        proof {
            assert(row == fields_view(rows@[i as int]@));
            assert(row.len() == 3);
            assert(c.rest() =~= row);
        }
        let name = c.bytes()?;
        let ghost after = c.rest();
        proof {
            assert(after == row.skip(1));
        }
        let (tag, content): (u16, Vec<u8>) = c.choice(0, 2)?;
        let ghost choice = Choice { tag, content: content@ };
        proof {
            lemma_row_named(row, choice, c.rest(), 0, 2);
        }
        let record = AutoArgRecord { name, value: arg_of(tag, content) };
        out.push(record);
        proof {
            assert(arg_rows(out@)[i as int] == row);
            assert forall|j: int| 0 <= j < i implies arg_rows(out@)[j] == #[trigger] rows_view(
                rows@,
            )[j] by {
                assert(arg_rows(out@)[j] == arg_rows(before)[j]);
            }
        }
        i += 1;
    }
    proof {
        assert(arg_rows(out@) =~= rows_view(rows@));
    }
    Ok(out)
}

/// Outputs as a list.
pub open spec fn output_rows(records: Seq<OutputRecord>) -> Seq<Seq<Seq<u8>>> {
    records.map_values(|r: OutputRecord| named_row(r.name@, path_choice(r.path)))
}

fn rows_of_outputs(records: &Vec<OutputRecord>) -> (r: Vec<Vec<Vec<u8>>>)
    ensures
        rows_view(r@) == output_rows(records@),
{
    let mut out: Vec<Vec<Vec<u8>>> = Vec::new();
    let mut i: usize = 0;
    while i < records.len()
        invariant
            i <= records.len(),
            out.len() == i,
            forall|j: int|
                0 <= j < i ==> fields_view(#[trigger] out@[j]@) == output_rows(records@)[j],
        decreases records.len() - i,
    {
        let record = &records[i];
        let (tag, content): (u16, Vec<u8>) = path_parts(&record.path);
        let row = push_named(&record.name, tag, &content);
        out.push(row);
        i += 1;
    }
    proof {
        assert(rows_view(out@) =~= output_rows(records@));
    }
    out
}

/// Whether what the records call unknown is so.
pub open spec fn outputs_sound(records: Seq<OutputRecord>) -> bool {
    forall|i: int| 0 <= i < records.len() ==> path_sound((#[trigger] records[i]).path)
}

fn outputs_of(rows: &Vec<Vec<Vec<u8>>>) -> (r: Result<Vec<OutputRecord>, WireError>)
    requires
        even_rows(rows_view(rows@), 3),
    ensures
        match r {
            Ok(records) => {
                &&& named_rows(rows_view(rows@), 1, 2)
                &&& output_rows(records@) == rows_view(rows@)
                &&& outputs_sound(records@)
            },
            Err(e) => !named_rows(rows_view(rows@), 1, 2) && e@ == WireFault::Malformed,
        },
{
    let mut out: Vec<OutputRecord> = Vec::new();
    let mut i: usize = 0;
    while i < rows.len()
        invariant
            i <= rows.len(),
            out.len() == i,
            even_rows(rows_view(rows@), 3),
            outputs_sound(out@),
            forall|j: int|
                0 <= j < i ==> take_choice((#[trigger] rows_view(rows@)[j]).skip(1), 1, 2) is Some,
            forall|j: int| 0 <= j < i ==> output_rows(out@)[j] == #[trigger] rows_view(rows@)[j],
        decreases rows.len() - i,
    {
        let ghost before = out@;
        let ghost row = rows_view(rows@)[i as int];
        let mut c = Cursor { fields: &rows[i], at: 0 };
        proof {
            assert(row == fields_view(rows@[i as int]@));
            assert(row.len() == 3);
            assert(c.rest() =~= row);
        }
        let name = c.bytes()?;
        let ghost after = c.rest();
        proof {
            assert(after == row.skip(1));
        }
        let (tag, content): (u16, Vec<u8>) = c.choice(1, 2)?;
        let ghost choice = Choice { tag, content: content@ };
        proof {
            lemma_row_named(row, choice, c.rest(), 1, 2);
        }
        let record = OutputRecord { name, path: path_of(tag, content) };
        out.push(record);
        proof {
            assert(output_rows(out@)[i as int] == row);
            assert forall|j: int| 0 <= j < i implies output_rows(out@)[j] == #[trigger] rows_view(
                rows@,
            )[j] by {
                assert(output_rows(out@)[j] == output_rows(before)[j]);
            }
        }
        i += 1;
    }
    proof {
        assert(output_rows(out@) =~= rows_view(rows@));
    }
    Ok(out)
}

proof fn lemma_opt(record: TextOptRecord, rest: Seq<Seq<u8>>)
    ensures
        take_choice(put_choice(opt_choice(record), rest), 1, 2) == Some((opt_choice(record), rest)),
{
    lemma_choice(opt_choice(record), 1, 2, rest);
}

proof fn lemma_input(record: InputRecord, rest: Seq<Seq<u8>>)
    ensures
        take_choice(put_choice(input_choice(record), rest), 0, 3) == Some(
            (input_choice(record), rest),
        ),
{
    lemma_choice(input_choice(record), 0, 3, rest);
}

proof fn lemma_texts(records: Vec<Vec<u8>>, rest: Seq<Seq<u8>>)
    ensures
        take_list(put_list(text_rows(records@), rest), 1) == Some((text_rows(records@), rest)),
{
    assert(records.len() == records@.len());
    lemma_list(text_rows(records@), 1, rest);
}

proof fn lemma_pairs(records: Vec<PairRecord>, rest: Seq<Seq<u8>>)
    ensures
        take_list(put_list(pair_rows(records@), rest), 2) == Some((pair_rows(records@), rest)),
{
    assert(records.len() == records@.len());
    lemma_list(pair_rows(records@), 2, rest);
}

proof fn lemma_drvs(records: Vec<InputDrvRecord>, rest: Seq<Seq<u8>>)
    ensures
        take_list(put_list(drv_rows(records@), rest), 2) == Some((drv_rows(records@), rest)),
{
    assert(records.len() == records@.len());
    lemma_list(drv_rows(records@), 2, rest);
}

proof fn lemma_args(records: Vec<AutoArgRecord>, rest: Seq<Seq<u8>>)
    ensures
        take_named(put_list(arg_rows(records@), rest), 0, 2) == Some(
            (arg_rows(records@), rest),
        ),
{
    let rows = arg_rows(records@);
    assert(records.len() == records@.len());
    assert forall|i: int| 0 <= i < rows.len() implies (#[trigger] rows[i]).len() == 3
        && take_choice(rows[i].skip(1), 0, 2) is Some by {
        lemma_named_row(records@[i].name@, arg_choice(records@[i].value), 0, 2);
    }
    lemma_list(rows, 3, rest);
}

proof fn lemma_outputs(records: Vec<OutputRecord>, rest: Seq<Seq<u8>>)
    ensures
        take_named(put_list(output_rows(records@), rest), 1, 2) == Some(
            (output_rows(records@), rest),
        ),
{
    let rows = output_rows(records@);
    assert(records.len() == records@.len());
    assert forall|i: int| 0 <= i < rows.len() implies (#[trigger] rows[i]).len() == 3
        && take_choice(rows[i].skip(1), 1, 2) is Some by {
        lemma_named_row(records@[i].name@, path_choice(records@[i].path), 1, 2);
    }
    lemma_list(rows, 3, rest);
}

/// A union whose content is a list of texts, which is empty where it has none.
#[verifier::ext_equal]
pub struct ListChoice {
    /// The discriminant.
    pub tag: u16,
    /// The texts.
    pub rows: Seq<Seq<Seq<u8>>>,
}

/// An optional list of texts as a union.
pub open spec fn list_choice(record: TextListOptRecord) -> ListChoice {
    match record {
        TextListOptRecord::Absent => ListChoice { tag: 0, rows: Seq::empty() },
        TextListOptRecord::Present(list) => ListChoice { tag: 1, rows: text_rows(list@) },
        TextListOptRecord::Unknown(n) => ListChoice { tag: n, rows: Seq::empty() },
    }
}

/// Whether what the record calls unknown is so.
pub open spec fn list_sound(record: TextListOptRecord) -> bool {
    record matches TextListOptRecord::Unknown(n) ==> n >= 2
}

/// A union of a list, and what follows it.
pub open spec fn put_list_choice(c: ListChoice, rest: Seq<Seq<u8>>) -> Seq<Seq<u8>> {
    put_number(c.tag as u64, put_list(c.rows, rest))
}

/// The union of a list in front, and what follows it.
pub open spec fn take_list_choice(f: Seq<Seq<u8>>) -> Option<(ListChoice, Seq<Seq<u8>>)> {
    match take_tag(f) {
        None => None,
        Some((tag, g)) => match take_list(g, 1) {
            None => None,
            Some((rows, rest)) => if tag == 1 || rows.len() == 0 {
                Some((ListChoice { tag, rows }, rest))
            } else {
                None
            },
        },
    }
}

proof fn lemma_list_choice(record: TextListOptRecord, rest: Seq<Seq<u8>>)
    ensures
        take_list_choice(put_list_choice(list_choice(record), rest)) == Some(
            (list_choice(record), rest),
        ),
{
    let c = list_choice(record);
    lemma_tag(c.tag, put_list(c.rows, rest));
    match record {
        TextListOptRecord::Present(list) => {
            lemma_texts(list, rest);
        },
        _ => {
            lemma_list(c.rows, 1, rest);
        },
    }
}

fn push_list_choice(out: &mut Vec<Vec<u8>>, record: &TextListOptRecord)
    ensures
        forall|rest: Seq<Seq<u8>>|
            #![trigger fields_view(final(out)@) + rest]
            fields_view(final(out)@) + rest == fields_view(old(out)@) + put_list_choice(
                list_choice(*record),
                rest,
            ),
{
    let none: Vec<Vec<Vec<u8>>> = Vec::new();
    proof {
        assert(rows_view(none@) =~= Seq::empty());
    }
    match record {
        TextListOptRecord::Absent => {
            push_number(out, 0);
            push_list(out, &none);
        },
        TextListOptRecord::Present(list) => {
            let rows = rows_of_texts(list);
            push_number(out, 1);
            push_list(out, &rows);
        },
        TextListOptRecord::Unknown(n) => {
            push_number(out, *n as u64);
            push_list(out, &none);
        },
    }
}

fn read_list_choice(c: &mut Cursor<'_>) -> (r: Result<TextListOptRecord, WireError>)
    requires
        old(c).valid(),
    ensures
        final(c).valid(),
        match r {
            Ok(record) => {
                &&& take_list_choice(old(c).rest()) == Some((list_choice(record), final(c).rest()))
                &&& list_sound(record)
            },
            Err(e) => take_list_choice(old(c).rest()) is None && e@ == WireFault::Malformed,
        },
{
    let tag: u16 = c.tag()?;
    let rows = c.list(1)?;
    if tag != 1 && rows.len() != 0 {
        return Err(WireError::Malformed);
    }
    proof {
        if tag != 1 {
            assert(rows_view(rows@) =~= Seq::empty());
        }
    }
    match tag {
        0 => Ok(TextListOptRecord::Absent),
        1 => Ok(TextListOptRecord::Present(texts_of(&rows))),
        n => Ok(TextListOptRecord::Unknown(n)),
    }
}

/// The version in front, and what follows it.
pub open spec fn take_version(f: Seq<Seq<u8>>) -> Option<(u32, Seq<Seq<u8>>)> {
    match take_number(f) {
        Some((n, rest)) => if n <= 0xffff_ffff {
            Some((n as u32, rest))
        } else {
            None
        },
        None => None,
    }
}

fn read_version(c: &mut Cursor<'_>) -> (r: Result<u32, WireError>)
    requires
        old(c).valid(),
    ensures
        final(c).valid(),
        match r {
            Ok(version) => take_version(old(c).rest()) == Some((version, final(c).rest())),
            Err(e) => take_version(old(c).rest()) is None && e@ == WireFault::Malformed,
        },
{
    let n: u64 = c.number()?;
    if n > 0xffff_ffff {
        return Err(WireError::Malformed);
    }
    Ok(n as u32)
}

/// The fields of a worker's configuration.
#[verifier::ext_equal]
pub struct ConfigFields {
    /// What to evaluate.
    pub input: Choice,
    /// The arguments.
    pub auto_args: Seq<Seq<Seq<u8>>>,
    /// Recurse into all attribute sets.
    pub force_recurse: bool,
    /// Where to register garbage-collector roots.
    pub gc_roots_dir: Choice,
    /// The memory limit, in mebibytes.
    pub max_memory_size: u64,
    /// Per-attribute timeout in seconds.
    pub item_timeout_seconds: u64,
    /// Attach `meta` attributes.
    pub meta: bool,
    /// Attach input derivations.
    pub show_input_drvs: bool,
    /// Flake input overrides.
    pub override_inputs: Seq<Seq<Seq<u8>>>,
    /// Nix settings.
    pub nix_options: Seq<Seq<Seq<u8>>>,
    /// The locked flake graph.
    pub locked_flake_json: Choice,
}

/// A worker's configuration as its fields.
pub open spec fn config_fields(record: WorkerConfigRecord) -> ConfigFields {
    ConfigFields {
        input: input_choice(record.input),
        auto_args: arg_rows(record.auto_args@),
        force_recurse: record.force_recurse,
        gc_roots_dir: opt_choice(record.gc_roots_dir),
        max_memory_size: record.max_memory_size,
        item_timeout_seconds: record.item_timeout_seconds,
        meta: record.meta,
        show_input_drvs: record.show_input_drvs,
        override_inputs: pair_rows(record.override_inputs@),
        nix_options: pair_rows(record.nix_options@),
        locked_flake_json: opt_choice(record.locked_flake_json),
    }
}

/// Whether what the record calls unknown is so.
pub open spec fn config_sound(record: WorkerConfigRecord) -> bool {
    &&& input_sound(record.input)
    &&& args_sound(record.auto_args@)
    &&& opt_sound(record.gc_roots_dir)
    &&& opt_sound(record.locked_flake_json)
}

/// A worker's configuration, and what follows it.
pub open spec fn put_config(v: ConfigFields, rest: Seq<Seq<u8>>) -> Seq<Seq<u8>> {
    let r10 = put_choice(v.locked_flake_json, rest);
    let r9 = put_list(v.nix_options, r10);
    let r8 = put_list(v.override_inputs, r9);
    let r7 = put_flag(v.show_input_drvs, r8);
    let r6 = put_flag(v.meta, r7);
    let r5 = put_number(v.item_timeout_seconds, r6);
    let r4 = put_number(v.max_memory_size, r5);
    let r3 = put_choice(v.gc_roots_dir, r4);
    let r2 = put_flag(v.force_recurse, r3);
    let r1 = put_list(v.auto_args, r2);
    put_choice(v.input, r1)
}

/// A worker's configuration in front, and what follows it.
pub open spec fn take_config(f: Seq<Seq<u8>>) -> Option<(ConfigFields, Seq<Seq<u8>>)> {
    match take_choice(f, 0, 3) {
        None => None,
        Some((input, f1)) => match take_named(f1, 0, 2) {
            None => None,
            Some((auto_args, f2)) => match take_flag(f2) {
                None => None,
                Some((force_recurse, f3)) => match take_choice(f3, 1, 2) {
                    None => None,
                    Some((gc_roots_dir, f4)) => match take_number(f4) {
                        None => None,
                        Some((max_memory_size, f5)) => match take_number(f5) {
                            None => None,
                            Some((item_timeout_seconds, f6)) => match take_flag(f6) {
                                None => None,
                                Some((meta, f7)) => match take_flag(f7) {
                                    None => None,
                                    Some((show_input_drvs, f8)) => match take_list(f8, 2) {
                                        None => None,
                                        Some((override_inputs, f9)) => match take_list(f9, 2) {
                                            None => None,
                                            Some((nix_options, f10)) => match take_choice(f10, 1, 2) {
                                                None => None,
                                                Some((locked_flake_json, rest)) => Some(
                                                    (
                                                        ConfigFields {
                                                            input,
                                                            auto_args,
                                                            force_recurse,
                                                            gc_roots_dir,
                                                            max_memory_size,
                                                            item_timeout_seconds,
                                                            meta,
                                                            show_input_drvs,
                                                            override_inputs,
                                                            nix_options,
                                                            locked_flake_json,
                                                        },
                                                        rest,
                                                    ),
                                                ),
                                            },
                                        },
                                    },
                                },
                            },
                        },
                    },
                },
            },
        },
    }
}

proof fn lemma_config(record: WorkerConfigRecord, rest: Seq<Seq<u8>>)
    ensures
        take_config(put_config(config_fields(record), rest)) == Some((config_fields(record), rest)),
{
    let v = config_fields(record);
    lemma_opt(record.locked_flake_json, rest);
    let r10 = put_choice(v.locked_flake_json, rest);
    lemma_pairs(record.nix_options, r10);
    let r9 = put_list(v.nix_options, r10);
    lemma_pairs(record.override_inputs, r9);
    let r8 = put_list(v.override_inputs, r9);
    lemma_flag(record.show_input_drvs, r8);
    let r7 = put_flag(v.show_input_drvs, r8);
    lemma_flag(record.meta, r7);
    let r6 = put_flag(v.meta, r7);
    lemma_number(record.item_timeout_seconds, r6);
    let r5 = put_number(v.item_timeout_seconds, r6);
    lemma_number(record.max_memory_size, r5);
    let r4 = put_number(v.max_memory_size, r5);
    lemma_opt(record.gc_roots_dir, r4);
    let r3 = put_choice(v.gc_roots_dir, r4);
    lemma_flag(record.force_recurse, r3);
    let r2 = put_flag(v.force_recurse, r3);
    lemma_args(record.auto_args, r2);
    let r1 = put_list(v.auto_args, r2);
    lemma_input(record.input, r1);
}

fn push_config(out: &mut Vec<Vec<u8>>, record: &WorkerConfigRecord)
    ensures
        forall|rest: Seq<Seq<u8>>|
            #![trigger fields_view(final(out)@) + rest]
            fields_view(final(out)@) + rest == fields_view(old(out)@) + put_config(
                config_fields(*record),
                rest,
            ),
{
    let (tag, content): (u16, Vec<u8>) = input_parts(&record.input);
    push_choice(out, tag, &content);
    let rows = rows_of_args(&record.auto_args);
    push_list(out, &rows);
    push_flag(out, record.force_recurse);
    let (tag, content): (u16, Vec<u8>) = opt_parts(&record.gc_roots_dir);
    push_choice(out, tag, &content);
    push_number(out, record.max_memory_size);
    push_number(out, record.item_timeout_seconds);
    push_flag(out, record.meta);
    push_flag(out, record.show_input_drvs);
    let rows = rows_of_pairs(&record.override_inputs);
    push_list(out, &rows);
    let rows = rows_of_pairs(&record.nix_options);
    push_list(out, &rows);
    let (tag, content): (u16, Vec<u8>) = opt_parts(&record.locked_flake_json);
    push_choice(out, tag, &content);
}

fn read_config(c: &mut Cursor<'_>) -> (r: Result<WorkerConfigRecord, WireError>)
    requires
        old(c).valid(),
    ensures
        final(c).valid(),
        match r {
            Ok(record) => {
                &&& take_config(old(c).rest()) == Some((config_fields(record), final(c).rest()))
                &&& config_sound(record)
            },
            Err(e) => take_config(old(c).rest()) is None && e@ == WireFault::Malformed,
        },
{
    let (tag, content): (u16, Vec<u8>) = c.choice(0, 3)?;
    let input = input_of(tag, content);
    let rows = c.list(3)?;
    let auto_args = args_of(&rows)?;
    let force_recurse = c.flag()?;
    let (tag, content): (u16, Vec<u8>) = c.choice(1, 2)?;
    let gc_roots_dir = opt_of(tag, content);
    let max_memory_size: u64 = c.number()?;
    let item_timeout_seconds: u64 = c.number()?;
    let meta = c.flag()?;
    let show_input_drvs = c.flag()?;
    let rows = c.list(2)?;
    let override_inputs = pairs_of(&rows);
    let rows = c.list(2)?;
    let nix_options = pairs_of(&rows);
    let (tag, content): (u16, Vec<u8>) = c.choice(1, 2)?;
    let locked_flake_json = opt_of(tag, content);
    Ok(
        WorkerConfigRecord {
            input,
            auto_args,
            force_recurse,
            gc_roots_dir,
            max_memory_size,
            item_timeout_seconds,
            meta,
            show_input_drvs,
            override_inputs,
            nix_options,
            locked_flake_json,
        },
    )
}

/// The fields of a setup.
#[verifier::ext_equal]
pub struct SetupFields {
    /// The version that the master speaks.
    pub protocol_version: u32,
    /// How to evaluate.
    pub config: ConfigFields,
    /// The shared secret.
    pub token: Choice,
    /// The store directory that the master uses.
    pub expected_store_dir: Choice,
}

/// A setup as its fields.
pub open spec fn setup_fields(record: SetupRecord) -> SetupFields {
    SetupFields {
        protocol_version: record.protocol_version,
        config: config_fields(record.config),
        token: opt_choice(record.token),
        expected_store_dir: opt_choice(record.expected_store_dir),
    }
}

/// Whether what the record calls unknown is so.
pub open spec fn setup_sound(record: SetupRecord) -> bool {
    &&& config_sound(record.config)
    &&& opt_sound(record.token)
    &&& opt_sound(record.expected_store_dir)
}

/// A setup, and what follows it.
pub open spec fn put_setup(v: SetupFields, rest: Seq<Seq<u8>>) -> Seq<Seq<u8>> {
    let r3 = put_choice(v.expected_store_dir, rest);
    let r2 = put_choice(v.token, r3);
    let r1 = put_config(v.config, r2);
    put_number(v.protocol_version as u64, r1)
}

/// A setup in front, and what follows it.
pub open spec fn take_setup(f: Seq<Seq<u8>>) -> Option<(SetupFields, Seq<Seq<u8>>)> {
    match take_version(f) {
        None => None,
        Some((protocol_version, f1)) => match take_config(f1) {
            None => None,
            Some((config, f2)) => match take_choice(f2, 1, 2) {
                None => None,
                Some((token, f3)) => match take_choice(f3, 1, 2) {
                    None => None,
                    Some((expected_store_dir, rest)) => Some(
                        (SetupFields { protocol_version, config, token, expected_store_dir }, rest),
                    ),
                },
            },
        },
    }
}

proof fn lemma_setup(record: SetupRecord, rest: Seq<Seq<u8>>)
    ensures
        take_setup(put_setup(setup_fields(record), rest)) == Some((setup_fields(record), rest)),
{
    let v = setup_fields(record);
    lemma_opt(record.expected_store_dir, rest);
    let r3 = put_choice(v.expected_store_dir, rest);
    lemma_opt(record.token, r3);
    let r2 = put_choice(v.token, r3);
    lemma_config(record.config, r2);
    let r1 = put_config(v.config, r2);
    lemma_number(record.protocol_version as u64, r1);
}

fn push_setup(out: &mut Vec<Vec<u8>>, record: &SetupRecord)
    ensures
        forall|rest: Seq<Seq<u8>>|
            #![trigger fields_view(final(out)@) + rest]
            fields_view(final(out)@) + rest == fields_view(old(out)@) + put_setup(
                setup_fields(*record),
                rest,
            ),
{
    push_number(out, record.protocol_version as u64);
    push_config(out, &record.config);
    let (tag, content): (u16, Vec<u8>) = opt_parts(&record.token);
    push_choice(out, tag, &content);
    let (tag, content): (u16, Vec<u8>) = opt_parts(&record.expected_store_dir);
    push_choice(out, tag, &content);
}

fn read_setup(c: &mut Cursor<'_>) -> (r: Result<SetupRecord, WireError>)
    requires
        old(c).valid(),
    ensures
        final(c).valid(),
        match r {
            Ok(record) => {
                &&& take_setup(old(c).rest()) == Some((setup_fields(record), final(c).rest()))
                &&& setup_sound(record)
            },
            Err(e) => take_setup(old(c).rest()) is None && e@ == WireFault::Malformed,
        },
{
    let protocol_version: u32 = read_version(c)?;
    let config = read_config(c)?;
    let (tag, content): (u16, Vec<u8>) = c.choice(1, 2)?;
    let token = opt_of(tag, content);
    let (tag, content): (u16, Vec<u8>) = c.choice(1, 2)?;
    let expected_store_dir = opt_of(tag, content);
    Ok(
        SetupRecord {
            protocol_version,
            config,
            token,
            expected_store_dir,
        },
    )
}

/// The fields of a derivation.
#[verifier::ext_equal]
pub struct DerivationFields {
    /// The dotted attribute path.
    pub attr: Seq<u8>,
    /// The attribute path.
    pub attr_path: Seq<Seq<Seq<u8>>>,
    /// The name.
    pub name: Seq<u8>,
    /// The system.
    pub system: Seq<u8>,
    /// The store path.
    pub drv_path: Seq<u8>,
    /// The outputs.
    pub outputs: Seq<Seq<Seq<u8>>>,
    /// The `meta` attribute, as JSON.
    pub meta_json: Choice,
    /// The input derivations.
    pub input_drvs: Seq<Seq<Seq<u8>>>,
    /// The constituents.
    pub constituents: ListChoice,
    /// Why the garbage-collector root could not be registered.
    pub gc_root_error: Choice,
}

/// A derivation as its fields.
pub open spec fn derivation_fields(record: DerivationRecord) -> DerivationFields {
    DerivationFields {
        attr: record.attr@,
        attr_path: text_rows(record.attr_path@),
        name: record.name@,
        system: record.system@,
        drv_path: record.drv_path@,
        outputs: output_rows(record.outputs@),
        meta_json: opt_choice(record.meta_json),
        input_drvs: drv_rows(record.input_drvs@),
        constituents: list_choice(record.constituents),
        gc_root_error: opt_choice(record.gc_root_error),
    }
}

/// Whether what the record calls unknown is so.
pub open spec fn derivation_sound(record: DerivationRecord) -> bool {
    &&& outputs_sound(record.outputs@)
    &&& opt_sound(record.meta_json)
    &&& list_sound(record.constituents)
    &&& opt_sound(record.gc_root_error)
}

/// A derivation, and what follows it.
pub open spec fn put_derivation(v: DerivationFields, rest: Seq<Seq<u8>>) -> Seq<Seq<u8>> {
    let r9 = put_choice(v.gc_root_error, rest);
    let r8 = put_list_choice(v.constituents, r9);
    let r7 = put_list(v.input_drvs, r8);
    let r6 = put_choice(v.meta_json, r7);
    let r5 = put_list(v.outputs, r6);
    let r4 = put_bytes(v.drv_path, r5);
    let r3 = put_bytes(v.system, r4);
    let r2 = put_bytes(v.name, r3);
    let r1 = put_list(v.attr_path, r2);
    put_bytes(v.attr, r1)
}

/// A derivation in front, and what follows it.
pub open spec fn take_derivation(f: Seq<Seq<u8>>) -> Option<(DerivationFields, Seq<Seq<u8>>)> {
    match take_bytes(f) {
        None => None,
        Some((attr, f1)) => match take_list(f1, 1) {
            None => None,
            Some((attr_path, f2)) => match take_bytes(f2) {
                None => None,
                Some((name, f3)) => match take_bytes(f3) {
                    None => None,
                    Some((system, f4)) => match take_bytes(f4) {
                        None => None,
                        Some((drv_path, f5)) => match take_named(f5, 1, 2) {
                            None => None,
                            Some((outputs, f6)) => match take_choice(f6, 1, 2) {
                                None => None,
                                Some((meta_json, f7)) => match take_list(f7, 2) {
                                    None => None,
                                    Some((input_drvs, f8)) => match take_list_choice(f8) {
                                        None => None,
                                        Some((constituents, f9)) => match take_choice(f9, 1, 2) {
                                            None => None,
                                            Some((gc_root_error, rest)) => Some(
                                                (
                                                    DerivationFields {
                                                        attr,
                                                        attr_path,
                                                        name,
                                                        system,
                                                        drv_path,
                                                        outputs,
                                                        meta_json,
                                                        input_drvs,
                                                        constituents,
                                                        gc_root_error,
                                                    },
                                                    rest,
                                                ),
                                            ),
                                        },
                                    },
                                },
                            },
                        },
                    },
                },
            },
        },
    }
}

proof fn lemma_derivation(record: DerivationRecord, rest: Seq<Seq<u8>>)
    ensures
        take_derivation(put_derivation(derivation_fields(record), rest)) == Some(
            (derivation_fields(record), rest),
        ),
{
    let v = derivation_fields(record);
    lemma_opt(record.gc_root_error, rest);
    let r9 = put_choice(v.gc_root_error, rest);
    lemma_list_choice(record.constituents, r9);
    let r8 = put_list_choice(v.constituents, r9);
    lemma_drvs(record.input_drvs, r8);
    let r7 = put_list(v.input_drvs, r8);
    lemma_opt(record.meta_json, r7);
    let r6 = put_choice(v.meta_json, r7);
    lemma_outputs(record.outputs, r6);
    let r5 = put_list(v.outputs, r6);
    lemma_bytes(record.drv_path@, r5);
    let r4 = put_bytes(v.drv_path, r5);
    lemma_bytes(record.system@, r4);
    let r3 = put_bytes(v.system, r4);
    lemma_bytes(record.name@, r3);
    let r2 = put_bytes(v.name, r3);
    lemma_texts(record.attr_path, r2);
    let r1 = put_list(v.attr_path, r2);
    lemma_bytes(record.attr@, r1);
}

fn push_derivation(out: &mut Vec<Vec<u8>>, record: &DerivationRecord)
    ensures
        forall|rest: Seq<Seq<u8>>|
            #![trigger fields_view(final(out)@) + rest]
            fields_view(final(out)@) + rest == fields_view(old(out)@) + put_derivation(
                derivation_fields(*record),
                rest,
            ),
{
    push_bytes(out, &record.attr);
    let rows = rows_of_texts(&record.attr_path);
    push_list(out, &rows);
    push_bytes(out, &record.name);
    push_bytes(out, &record.system);
    push_bytes(out, &record.drv_path);
    let rows = rows_of_outputs(&record.outputs);
    push_list(out, &rows);
    let (tag, content): (u16, Vec<u8>) = opt_parts(&record.meta_json);
    push_choice(out, tag, &content);
    let rows = rows_of_drvs(&record.input_drvs);
    push_list(out, &rows);
    push_list_choice(out, &record.constituents);
    let (tag, content): (u16, Vec<u8>) = opt_parts(&record.gc_root_error);
    push_choice(out, tag, &content);
}

fn read_derivation(c: &mut Cursor<'_>) -> (r: Result<DerivationRecord, WireError>)
    requires
        old(c).valid(),
    ensures
        final(c).valid(),
        match r {
            Ok(record) => {
                &&& take_derivation(old(c).rest()) == Some(
                    (derivation_fields(record), final(c).rest()),
                )
                &&& derivation_sound(record)
            },
            Err(e) => take_derivation(old(c).rest()) is None && e@ == WireFault::Malformed,
        },
{
    let attr = c.bytes()?;
    let rows = c.list(1)?;
    let attr_path = texts_of(&rows);
    let name = c.bytes()?;
    let system = c.bytes()?;
    let drv_path = c.bytes()?;
    let rows = c.list(3)?;
    let outputs = outputs_of(&rows)?;
    let (tag, content): (u16, Vec<u8>) = c.choice(1, 2)?;
    let meta_json = opt_of(tag, content);
    let rows = c.list(2)?;
    let input_drvs = drvs_of(&rows);
    let constituents = read_list_choice(c)?;
    let (tag, content): (u16, Vec<u8>) = c.choice(1, 2)?;
    let gc_root_error = opt_of(tag, content);
    Ok(
        DerivationRecord {
            attr,
            attr_path,
            name,
            system,
            drv_path,
            outputs,
            meta_json,
            input_drvs,
            constituents,
            gc_root_error,
        },
    )
}

/// The fields of an attribute set.
#[verifier::ext_equal]
pub struct AttrSetFields {
    /// The dotted attribute path.
    pub attr: Seq<u8>,
    /// The attribute path.
    pub attr_path: Seq<Seq<Seq<u8>>>,
    /// The names to go on with.
    pub attrs: Seq<Seq<Seq<u8>>>,
}

/// An attribute set as its fields.
pub open spec fn attr_set_fields(record: AttrSetRecord) -> AttrSetFields {
    AttrSetFields {
        attr: record.attr@,
        attr_path: text_rows(record.attr_path@),
        attrs: text_rows(record.attrs@),
    }
}

/// An attribute set, and what follows it.
pub open spec fn put_attr_set(v: AttrSetFields, rest: Seq<Seq<u8>>) -> Seq<Seq<u8>> {
    let r2 = put_list(v.attrs, rest);
    let r1 = put_list(v.attr_path, r2);
    put_bytes(v.attr, r1)
}

/// An attribute set in front, and what follows it.
pub open spec fn take_attr_set(f: Seq<Seq<u8>>) -> Option<(AttrSetFields, Seq<Seq<u8>>)> {
    match take_bytes(f) {
        None => None,
        Some((attr, f1)) => match take_list(f1, 1) {
            None => None,
            Some((attr_path, f2)) => match take_list(f2, 1) {
                None => None,
                Some((attrs, rest)) => Some(
                    (AttrSetFields { attr, attr_path, attrs }, rest),
                ),
            },
        },
    }
}

proof fn lemma_attr_set(record: AttrSetRecord, rest: Seq<Seq<u8>>)
    ensures
        take_attr_set(put_attr_set(attr_set_fields(record), rest)) == Some(
            (attr_set_fields(record), rest),
        ),
{
    let v = attr_set_fields(record);
    lemma_texts(record.attrs, rest);
    let r2 = put_list(v.attrs, rest);
    lemma_texts(record.attr_path, r2);
    let r1 = put_list(v.attr_path, r2);
    lemma_bytes(record.attr@, r1);
}

fn push_attr_set(out: &mut Vec<Vec<u8>>, record: &AttrSetRecord)
    ensures
        forall|rest: Seq<Seq<u8>>|
            #![trigger fields_view(final(out)@) + rest]
            fields_view(final(out)@) + rest == fields_view(old(out)@) + put_attr_set(
                attr_set_fields(*record),
                rest,
            ),
{
    push_bytes(out, &record.attr);
    let rows = rows_of_texts(&record.attr_path);
    push_list(out, &rows);
    let rows = rows_of_texts(&record.attrs);
    push_list(out, &rows);
}

fn read_attr_set(c: &mut Cursor<'_>) -> (r: Result<AttrSetRecord, WireError>)
    requires
        old(c).valid(),
    ensures
        final(c).valid(),
        match r {
            Ok(record) => take_attr_set(old(c).rest()) == Some(
                (attr_set_fields(record), final(c).rest()),
            ),
            Err(e) => take_attr_set(old(c).rest()) is None && e@ == WireFault::Malformed,
        },
{
    let attr = c.bytes()?;
    let rows = c.list(1)?;
    let attr_path = texts_of(&rows);
    let rows = c.list(1)?;
    let attrs = texts_of(&rows);
    Ok(
        AttrSetRecord {
            attr,
            attr_path,
            attrs,
        },
    )
}

/// The fields of an evaluation error.
#[verifier::ext_equal]
pub struct ErrorFields {
    /// The dotted attribute path.
    pub attr: Seq<u8>,
    /// The attribute path.
    pub attr_path: Seq<Seq<Seq<u8>>>,
    /// What went wrong.
    pub error: Seq<u8>,
    /// Whether the whole evaluation fails with it.
    pub fatal: bool,
}

/// An evaluation error as its fields.
pub open spec fn error_fields(record: EvalErrorRecord) -> ErrorFields {
    ErrorFields {
        attr: record.attr@,
        attr_path: text_rows(record.attr_path@),
        error: record.error@,
        fatal: record.fatal,
    }
}

/// An evaluation error, and what follows it.
pub open spec fn put_error(v: ErrorFields, rest: Seq<Seq<u8>>) -> Seq<Seq<u8>> {
    let r3 = put_flag(v.fatal, rest);
    let r2 = put_bytes(v.error, r3);
    let r1 = put_list(v.attr_path, r2);
    put_bytes(v.attr, r1)
}

/// An evaluation error in front, and what follows it.
pub open spec fn take_error(f: Seq<Seq<u8>>) -> Option<(ErrorFields, Seq<Seq<u8>>)> {
    match take_bytes(f) {
        None => None,
        Some((attr, f1)) => match take_list(f1, 1) {
            None => None,
            Some((attr_path, f2)) => match take_bytes(f2) {
                None => None,
                Some((error, f3)) => match take_flag(f3) {
                    None => None,
                    Some((fatal, rest)) => Some(
                        (ErrorFields { attr, attr_path, error, fatal }, rest),
                    ),
                },
            },
        },
    }
}

proof fn lemma_error(record: EvalErrorRecord, rest: Seq<Seq<u8>>)
    ensures
        take_error(put_error(error_fields(record), rest)) == Some((error_fields(record), rest)),
{
    let v = error_fields(record);
    lemma_flag(record.fatal, rest);
    let r3 = put_flag(v.fatal, rest);
    lemma_bytes(record.error@, r3);
    let r2 = put_bytes(v.error, r3);
    lemma_texts(record.attr_path, r2);
    let r1 = put_list(v.attr_path, r2);
    lemma_bytes(record.attr@, r1);
}

fn push_error(out: &mut Vec<Vec<u8>>, record: &EvalErrorRecord)
    ensures
        forall|rest: Seq<Seq<u8>>|
            #![trigger fields_view(final(out)@) + rest]
            fields_view(final(out)@) + rest == fields_view(old(out)@) + put_error(
                error_fields(*record),
                rest,
            ),
{
    push_bytes(out, &record.attr);
    let rows = rows_of_texts(&record.attr_path);
    push_list(out, &rows);
    push_bytes(out, &record.error);
    push_flag(out, record.fatal);
}

fn read_error(c: &mut Cursor<'_>) -> (r: Result<EvalErrorRecord, WireError>)
    requires
        old(c).valid(),
    ensures
        final(c).valid(),
        match r {
            Ok(record) => take_error(old(c).rest()) == Some(
                (error_fields(record), final(c).rest()),
            ),
            Err(e) => take_error(old(c).rest()) is None && e@ == WireFault::Malformed,
        },
{
    let attr = c.bytes()?;
    let rows = c.list(1)?;
    let attr_path = texts_of(&rows);
    let error = c.bytes()?;
    let fatal = c.flag()?;
    Ok(
        EvalErrorRecord {
            attr,
            attr_path,
            error,
            fatal,
        },
    )
}

/// An event as it is laid out.
pub enum EventForm {
    /// A derivation.
    Derivation(DerivationFields),
    /// An attribute set.
    AttrSet(AttrSetFields),
    /// An error.
    Error(ErrorFields),
    /// What this schema does not know.
    Unknown(u16),
}

/// An event's record as it is laid out.
pub open spec fn event_form(record: EventRecord) -> EventForm {
    match record {
        EventRecord::Derivation(d) => EventForm::Derivation(derivation_fields(d)),
        EventRecord::AttrSet(s) => EventForm::AttrSet(attr_set_fields(s)),
        EventRecord::Error(e) => EventForm::Error(error_fields(e)),
        EventRecord::Unknown(n) => EventForm::Unknown(n),
    }
}

/// Whether what the record calls unknown is so.
pub open spec fn event_sound(record: EventRecord) -> bool {
    match record {
        EventRecord::Derivation(d) => derivation_sound(d),
        EventRecord::Unknown(n) => n >= 3,
        _ => true,
    }
}

/// An event, and what follows it.
pub open spec fn put_event(v: EventForm, rest: Seq<Seq<u8>>) -> Seq<Seq<u8>> {
    match v {
        EventForm::Derivation(d) => put_number(0, put_derivation(d, rest)),
        EventForm::AttrSet(s) => put_number(1, put_attr_set(s, rest)),
        EventForm::Error(e) => put_number(2, put_error(e, rest)),
        EventForm::Unknown(n) => put_number(n as u64, rest),
    }
}

/// The event in front, and what follows it.
pub open spec fn take_event(f: Seq<Seq<u8>>) -> Option<(EventForm, Seq<Seq<u8>>)> {
    match take_tag(f) {
        None => None,
        Some((tag, g)) => if tag == 0 {
            match take_derivation(g) {
                None => None,
                Some((d, rest)) => Some((EventForm::Derivation(d), rest)),
            }
        } else if tag == 1 {
            match take_attr_set(g) {
                None => None,
                Some((s, rest)) => Some((EventForm::AttrSet(s), rest)),
            }
        } else if tag == 2 {
            match take_error(g) {
                None => None,
                Some((e, rest)) => Some((EventForm::Error(e), rest)),
            }
        } else {
            Some((EventForm::Unknown(tag), g))
        },
    }
}

proof fn lemma_event(record: EventRecord, rest: Seq<Seq<u8>>)
    requires
        event_sound(record),
    ensures
        take_event(put_event(event_form(record), rest)) == Some((event_form(record), rest)),
{
    match record {
        EventRecord::Derivation(d) => {
            lemma_tag(0, put_derivation(derivation_fields(d), rest));
            lemma_derivation(d, rest);
        },
        EventRecord::AttrSet(s) => {
            lemma_tag(1, put_attr_set(attr_set_fields(s), rest));
            lemma_attr_set(s, rest);
        },
        EventRecord::Error(e) => {
            lemma_tag(2, put_error(error_fields(e), rest));
            lemma_error(e, rest);
        },
        EventRecord::Unknown(n) => {
            lemma_tag(n, rest);
        },
    }
}

fn push_event(out: &mut Vec<Vec<u8>>, record: &EventRecord)
    ensures
        forall|rest: Seq<Seq<u8>>|
            #![trigger fields_view(final(out)@) + rest]
            fields_view(final(out)@) + rest == fields_view(old(out)@) + put_event(
                event_form(*record),
                rest,
            ),
{
    match record {
        EventRecord::Derivation(d) => {
            push_number(out, 0);
            push_derivation(out, d);
        },
        EventRecord::AttrSet(s) => {
            push_number(out, 1);
            push_attr_set(out, s);
        },
        EventRecord::Error(e) => {
            push_number(out, 2);
            push_error(out, e);
        },
        EventRecord::Unknown(n) => {
            push_number(out, *n as u64);
        },
    }
}

fn read_event(c: &mut Cursor<'_>) -> (r: Result<EventRecord, WireError>)
    requires
        old(c).valid(),
    ensures
        final(c).valid(),
        match r {
            Ok(record) => {
                &&& take_event(old(c).rest()) == Some((event_form(record), final(c).rest()))
                &&& event_sound(record)
            },
            Err(e) => take_event(old(c).rest()) is None && e@ == WireFault::Malformed,
        },
{
    let tag: u16 = c.tag()?;
    match tag {
        0 => {
            let d = read_derivation(c)?;
            Ok(EventRecord::Derivation(d))
        },
        1 => {
            let s = read_attr_set(c)?;
            Ok(EventRecord::AttrSet(s))
        },
        2 => {
            let e = read_error(c)?;
            Ok(EventRecord::Error(e))
        },
        n => Ok(EventRecord::Unknown(n)),
    }
}

/// A master's message as it is laid out.
pub enum ClientForm {
    /// A setup.
    Setup(SetupFields),
    /// An attribute path.
    Work(Seq<Seq<Seq<u8>>>),
    /// The end.
    Shutdown,
    /// What this schema does not know.
    Unknown(u16),
}

/// The record of a master's message as it is laid out.
pub open spec fn client_form(record: ClientRecord) -> ClientForm {
    match record {
        ClientRecord::Setup(setup) => ClientForm::Setup(setup_fields(setup)),
        ClientRecord::Work(path) => ClientForm::Work(text_rows(path@)),
        ClientRecord::Shutdown => ClientForm::Shutdown,
        ClientRecord::Unknown(n) => ClientForm::Unknown(n),
    }
}

/// Whether what the record calls unknown is so.
pub open spec fn client_sound(record: ClientRecord) -> bool {
    match record {
        ClientRecord::Setup(setup) => setup_sound(setup),
        ClientRecord::Unknown(n) => n >= 3,
        _ => true,
    }
}

/// A master's message, and what follows it.
pub open spec fn put_client(v: ClientForm, rest: Seq<Seq<u8>>) -> Seq<Seq<u8>> {
    match v {
        ClientForm::Setup(setup) => put_number(0, put_setup(setup, rest)),
        ClientForm::Work(rows) => put_number(1, put_list(rows, rest)),
        ClientForm::Shutdown => put_number(2, rest),
        ClientForm::Unknown(n) => put_number(n as u64, rest),
    }
}

/// The master's message in front, and what follows it.
pub open spec fn take_client(f: Seq<Seq<u8>>) -> Option<(ClientForm, Seq<Seq<u8>>)> {
    match take_tag(f) {
        None => None,
        Some((tag, g)) => if tag == 0 {
            match take_setup(g) {
                None => None,
                Some((setup, rest)) => Some((ClientForm::Setup(setup), rest)),
            }
        } else if tag == 1 {
            match take_list(g, 1) {
                None => None,
                Some((rows, rest)) => Some((ClientForm::Work(rows), rest)),
            }
        } else if tag == 2 {
            Some((ClientForm::Shutdown, g))
        } else {
            Some((ClientForm::Unknown(tag), g))
        },
    }
}

/// Lays out a master's message.
pub fn client_fields(record: &ClientRecord) -> (r: Vec<Vec<u8>>)
    ensures
        fields_view(r@) == put_client(client_form(*record), Seq::empty()),
{
    let mut out: Vec<Vec<u8>> = Vec::new();
    match record {
        ClientRecord::Setup(setup) => {
            push_number(&mut out, 0);
            push_setup(&mut out, setup);
        },
        ClientRecord::Work(path) => {
            let rows = rows_of_texts(path);
            push_number(&mut out, 1);
            push_list(&mut out, &rows);
        },
        ClientRecord::Shutdown => {
            push_number(&mut out, 2);
        },
        ClientRecord::Unknown(n) => {
            push_number(&mut out, *n as u64);
        },
    }
    proof {
        let none: Seq<Seq<u8>> = Seq::empty();
        let whole = put_client(client_form(*record), none);
        assert(fields_view(out@) + none =~= fields_view(out@));
        assert(fields_view(Seq::<Vec<u8>>::empty()) + whole =~= whole);
    }
    out
}

/// The version of a setup that speaks another one.
pub open spec fn other_version(f: Seq<Seq<u8>>) -> Option<u32> {
    match take_tag(f) {
        Some((tag, g)) => match take_version(g) {
            Some((version, _)) => if tag == 0 && version != WORKER_PROTOCOL_VERSION {
                Some(version)
            } else {
                None
            },
            None => None,
        },
        None => None,
    }
}

/// Reads the record of a master's message from the front of its fields. The version of a setup
/// is looked at before anything that stands behind it.
pub fn client_record(fields: &Vec<Vec<u8>>) -> (r: Result<ClientRecord, WireError>)
    ensures
        match r {
            Ok(record) => {
                &&& other_version(fields_view(fields@)) is None
                &&& take_client(fields_view(fields@)) matches Some((form, _))
                &&& form == client_form(record)
                &&& client_sound(record)
            },
            Err(e) => match other_version(fields_view(fields@)) {
                Some(version) => e@ == WireFault::Version(version),
                None => take_client(fields_view(fields@)) is None && e@ == WireFault::Malformed,
            },
        },
{
    let mut c = Cursor { fields, at: 0 };
    proof {
        assert(c.rest() =~= fields_view(fields@));
    }
    let tag: u16 = c.tag()?;
    match tag {
        0 => {
            let mut ahead = Cursor { fields: c.fields, at: c.at };
            let version: u32 = read_version(&mut ahead)?;
            validate_worker_protocol(version)?;
            let setup = read_setup(&mut c)?;
            Ok(ClientRecord::Setup(setup))
        },
        1 => {
            let rows = c.list(1)?;
            Ok(ClientRecord::Work(texts_of(&rows)))
        },
        2 => Ok(ClientRecord::Shutdown),
        n => Ok(ClientRecord::Unknown(n)),
    }
}

/// The number of a status.
pub open spec fn status_tag(status: StatusRecord) -> u16 {
    match status {
        StatusRecord::Ready => 0,
        StatusRecord::Restart => 1,
        StatusRecord::Unknown(n) => n,
    }
}

/// A worker's message as it is laid out.
pub enum ServerForm {
    /// It can take work.
    Ready,
    /// An event.
    Event(EventForm),
    /// A status.
    Status(u16),
    /// An error.
    Error(Seq<u8>),
    /// What this schema does not know.
    Unknown(u16),
}

/// The record of a worker's message as it is laid out.
pub open spec fn server_form(record: ServerRecord) -> ServerForm {
    match record {
        ServerRecord::Ready => ServerForm::Ready,
        ServerRecord::Event(event) => ServerForm::Event(event_form(event)),
        ServerRecord::Status(status) => ServerForm::Status(status_tag(status)),
        ServerRecord::Error(b) => ServerForm::Error(b@),
        ServerRecord::Unknown(n) => ServerForm::Unknown(n),
    }
}

/// Whether what the record calls unknown is so.
pub open spec fn server_sound(record: ServerRecord) -> bool {
    match record {
        ServerRecord::Event(event) => event_sound(event),
        ServerRecord::Status(StatusRecord::Unknown(n)) => n >= 2,
        ServerRecord::Unknown(n) => n >= 4,
        _ => true,
    }
}

/// A worker's message, and what follows it.
pub open spec fn put_server(v: ServerForm, rest: Seq<Seq<u8>>) -> Seq<Seq<u8>> {
    match v {
        ServerForm::Ready => put_number(0, rest),
        ServerForm::Event(event) => put_number(1, put_event(event, rest)),
        ServerForm::Status(tag) => put_number(2, put_number(tag as u64, rest)),
        ServerForm::Error(b) => put_number(3, put_bytes(b, rest)),
        ServerForm::Unknown(n) => put_number(n as u64, rest),
    }
}

/// The worker's message in front, and what follows it.
pub open spec fn take_server(f: Seq<Seq<u8>>) -> Option<(ServerForm, Seq<Seq<u8>>)> {
    match take_tag(f) {
        None => None,
        Some((tag, g)) => if tag == 0 {
            Some((ServerForm::Ready, g))
        } else if tag == 1 {
            match take_event(g) {
                None => None,
                Some((event, rest)) => Some((ServerForm::Event(event), rest)),
            }
        } else if tag == 2 {
            match take_tag(g) {
                None => None,
                Some((status, rest)) => Some((ServerForm::Status(status), rest)),
            }
        } else if tag == 3 {
            match take_bytes(g) {
                None => None,
                Some((b, rest)) => Some((ServerForm::Error(b), rest)),
            }
        } else {
            Some((ServerForm::Unknown(tag), g))
        },
    }
}

/// Lays out a worker's message.
pub fn server_fields(record: &ServerRecord) -> (r: Vec<Vec<u8>>)
    ensures
        fields_view(r@) == put_server(server_form(*record), Seq::empty()),
{
    let mut out: Vec<Vec<u8>> = Vec::new();
    match record {
        ServerRecord::Ready => {
            push_number(&mut out, 0);
        },
        ServerRecord::Event(event) => {
            push_number(&mut out, 1);
            push_event(&mut out, event);
        },
        ServerRecord::Status(status) => {
            let tag: u16 = match status {
                StatusRecord::Ready => 0,
                StatusRecord::Restart => 1,
                StatusRecord::Unknown(n) => *n,
            };
            push_number(&mut out, 2);
            push_number(&mut out, tag as u64);
        },
        ServerRecord::Error(b) => {
            push_number(&mut out, 3);
            push_bytes(&mut out, b);
        },
        ServerRecord::Unknown(n) => {
            push_number(&mut out, *n as u64);
        },
    }
    proof {
        let none: Seq<Seq<u8>> = Seq::empty();
        let whole = put_server(server_form(*record), none);
        assert(fields_view(out@) + none =~= fields_view(out@));
        assert(fields_view(Seq::<Vec<u8>>::empty()) + whole =~= whole);
    }
    out
}

/// Reads the record of a worker's message from the front of its fields.
pub fn server_record(fields: &Vec<Vec<u8>>) -> (r: Result<ServerRecord, WireError>)
    ensures
        match r {
            Ok(record) => {
                &&& take_server(fields_view(fields@)) matches Some((form, _))
                &&& form == server_form(record)
                &&& server_sound(record)
            },
            Err(e) => take_server(fields_view(fields@)) is None && e@ == WireFault::Malformed,
        },
{
    let mut c = Cursor { fields, at: 0 };
    proof {
        assert(c.rest() =~= fields_view(fields@));
    }
    let tag: u16 = c.tag()?;
    match tag {
        0 => Ok(ServerRecord::Ready),
        1 => {
            let event = read_event(&mut c)?;
            Ok(ServerRecord::Event(event))
        },
        2 => {
            let status: u16 = c.tag()?;
            match status {
                0 => Ok(ServerRecord::Status(StatusRecord::Ready)),
                1 => Ok(ServerRecord::Status(StatusRecord::Restart)),
                n => Ok(ServerRecord::Status(StatusRecord::Unknown(n))),
            }
        },
        3 => {
            let b = c.bytes()?;
            Ok(ServerRecord::Error(b))
        },
        n => Ok(ServerRecord::Unknown(n)),
    }
}

/// What is laid out of a master's message is read back from the front, whatever follows it.
pub proof fn law_client_fields_read_back(record: ClientRecord, rest: Seq<Seq<u8>>)
    requires
        client_sound(record),
    ensures
        take_client(put_client(client_form(record), rest)) == Some((client_form(record), rest)),
{
    match record {
        ClientRecord::Setup(setup) => {
            lemma_tag(0, put_setup(setup_fields(setup), rest));
            lemma_setup(setup, rest);
        },
        ClientRecord::Work(path) => {
            lemma_tag(1, put_list(text_rows(path@), rest));
            lemma_texts(path, rest);
        },
        ClientRecord::Shutdown => {
            lemma_tag(2, rest);
        },
        ClientRecord::Unknown(n) => {
            lemma_tag(n, rest);
        },
    }
}

/// What is laid out of a worker's message is read back from the front, whatever follows it.
pub proof fn law_server_fields_read_back(record: ServerRecord, rest: Seq<Seq<u8>>)
    requires
        server_sound(record),
    ensures
        take_server(put_server(server_form(record), rest)) == Some((server_form(record), rest)),
{
    match record {
        ServerRecord::Ready => {
            lemma_tag(0, rest);
        },
        ServerRecord::Event(event) => {
            lemma_tag(1, put_event(event_form(event), rest));
            lemma_event(event, rest);
        },
        ServerRecord::Status(status) => {
            lemma_tag(2, put_number(status_tag(status) as u64, rest));
            lemma_tag(status_tag(status), rest);
        },
        ServerRecord::Error(b) => {
            lemma_tag(3, put_bytes(b@, rest));
            lemma_bytes(b@, rest);
        },
        ServerRecord::Unknown(n) => {
            lemma_tag(n, rest);
        },
    }
}

proof fn lemma_same_texts(a: Seq<Vec<u8>>, b: Seq<Vec<u8>>)
    requires
        text_rows(a) == text_rows(b),
    ensures
        texts_read(a) == texts_read(b),
    decreases a.len(),
{
    assert(text_rows(a).len() == a.len() && text_rows(b).len() == b.len());
    if a.len() > 0 {
        let n = a.len() - 1;
        assert(text_rows(a.drop_last()) =~= text_rows(a).drop_last());
        assert(text_rows(b.drop_last()) =~= text_rows(b).drop_last());
        lemma_same_texts(a.drop_last(), b.drop_last());
        assert(text_rows(a)[n] == text_rows(b)[n]);
        assert(text_rows(a)[n][0] == a[n]@ && text_rows(b)[n][0] == b[n]@);
    }
}

proof fn lemma_same_pairs(a: Seq<PairRecord>, b: Seq<PairRecord>)
    requires
        pair_rows(a) == pair_rows(b),
    ensures
        pairs_read(a) == pairs_read(b),
    decreases a.len(),
{
    assert(pair_rows(a).len() == a.len() && pair_rows(b).len() == b.len());
    if a.len() > 0 {
        let n = a.len() - 1;
        assert(pair_rows(a.drop_last()) =~= pair_rows(a).drop_last());
        assert(pair_rows(b.drop_last()) =~= pair_rows(b).drop_last());
        lemma_same_pairs(a.drop_last(), b.drop_last());
        assert(pair_rows(a)[n] == pair_rows(b)[n]);
        assert(pair_rows(a)[n][0] == a[n].key@ && pair_rows(b)[n][0] == b[n].key@);
        assert(pair_rows(a)[n][1] == a[n].value@ && pair_rows(b)[n][1] == b[n].value@);
    }
}

proof fn lemma_same_drvs(a: Seq<InputDrvRecord>, b: Seq<InputDrvRecord>)
    requires
        drv_rows(a) == drv_rows(b),
    ensures
        inputs_read(a) == inputs_read(b),
    decreases a.len(),
{
    assert(drv_rows(a).len() == a.len() && drv_rows(b).len() == b.len());
    if a.len() > 0 {
        let n = a.len() - 1;
        assert(drv_rows(a.drop_last()) =~= drv_rows(a).drop_last());
        assert(drv_rows(b.drop_last()) =~= drv_rows(b).drop_last());
        lemma_same_drvs(a.drop_last(), b.drop_last());
        assert(drv_rows(a)[n] == drv_rows(b)[n]);
        assert(drv_rows(a)[n][0] == a[n].drv_path@ && drv_rows(b)[n][0] == b[n].drv_path@);
        assert(drv_rows(a)[n][1] == a[n].value_json@ && drv_rows(b)[n][1] == b[n].value_json@);
    }
}

proof fn lemma_same_named(p: Seq<u8>, c: Choice, q: Seq<u8>, d: Choice)
    requires
        named_row(p, c) == named_row(q, d),
    ensures
        p == q,
        c == d,
{
    lemma_bytes(p, put_choice(c, Seq::empty()));
    lemma_bytes(q, put_choice(d, Seq::empty()));
    lemma_tag(c.tag, put_bytes(c.content, Seq::empty()));
    lemma_tag(d.tag, put_bytes(d.content, Seq::empty()));
    lemma_bytes(c.content, Seq::empty());
    lemma_bytes(d.content, Seq::empty());
}

proof fn lemma_same_args(a: Seq<AutoArgRecord>, b: Seq<AutoArgRecord>)
    requires
        arg_rows(a) == arg_rows(b),
        args_sound(a),
        args_sound(b),
    ensures
        args_read(a) == args_read(b),
    decreases a.len(),
{
    assert(arg_rows(a).len() == a.len() && arg_rows(b).len() == b.len());
    if a.len() > 0 {
        let n = a.len() - 1;
        assert(arg_rows(a.drop_last()) =~= arg_rows(a).drop_last());
        assert(arg_rows(b.drop_last()) =~= arg_rows(b).drop_last());
        lemma_same_args(a.drop_last(), b.drop_last());
        assert(arg_rows(a)[n] == arg_rows(b)[n]);
        lemma_same_named(a[n].name@, arg_choice(a[n].value), b[n].name@, arg_choice(b[n].value));
    }
}

proof fn lemma_same_outputs(a: Seq<OutputRecord>, b: Seq<OutputRecord>)
    requires
        output_rows(a) == output_rows(b),
        outputs_sound(a),
        outputs_sound(b),
    ensures
        outputs_read(a) == outputs_read(b),
    decreases a.len(),
{
    assert(output_rows(a).len() == a.len() && output_rows(b).len() == b.len());
    if a.len() > 0 {
        let n = a.len() - 1;
        assert(output_rows(a.drop_last()) =~= output_rows(a).drop_last());
        assert(output_rows(b.drop_last()) =~= output_rows(b).drop_last());
        lemma_same_outputs(a.drop_last(), b.drop_last());
        assert(output_rows(a)[n] == output_rows(b)[n]);
        lemma_same_named(a[n].name@, path_choice(a[n].path), b[n].name@, path_choice(b[n].path));
    }
}

proof fn lemma_same_config(a: WorkerConfigRecord, b: WorkerConfigRecord)
    requires
        config_fields(a) == config_fields(b),
        config_sound(a),
        config_sound(b),
    ensures
        config_read(a) == config_read(b),
{
    lemma_same_args(a.auto_args@, b.auto_args@);
    lemma_same_pairs(a.override_inputs@, b.override_inputs@);
    lemma_same_pairs(a.nix_options@, b.nix_options@);
    assert(input_choice(a.input) == input_choice(b.input));
    assert(input_read(a.input) == input_read(b.input));
    assert(opt_choice(a.gc_roots_dir) == opt_choice(b.gc_roots_dir));
    assert(opt_read(a.gc_roots_dir) == opt_read(b.gc_roots_dir));
    assert(opt_choice(a.locked_flake_json) == opt_choice(b.locked_flake_json));
    assert(opt_read(a.locked_flake_json) == opt_read(b.locked_flake_json));
}

proof fn lemma_same_derivation(a: DerivationRecord, b: DerivationRecord)
    requires
        derivation_fields(a) == derivation_fields(b),
        derivation_sound(a),
        derivation_sound(b),
    ensures
        derivation_read(a) == derivation_read(b),
{
    lemma_same_texts(a.attr_path@, b.attr_path@);
    lemma_same_outputs(a.outputs@, b.outputs@);
    lemma_same_drvs(a.input_drvs@, b.input_drvs@);
    assert(opt_choice(a.meta_json) == opt_choice(b.meta_json));
    assert(meta_read(a.meta_json) == meta_read(b.meta_json));
    assert(opt_choice(a.gc_root_error) == opt_choice(b.gc_root_error));
    assert(opt_read(a.gc_root_error) == opt_read(b.gc_root_error));
    assert(list_choice(a.constituents) == list_choice(b.constituents));
    assert(list_opt_read(a.constituents) == list_opt_read(b.constituents)) by {
        if let TextListOptRecord::Present(p) = a.constituents {
            if let TextListOptRecord::Present(q) = b.constituents {
                lemma_same_texts(p@, q@);
            }
        }
    }
    assert(derivation_texts_read(a) == derivation_texts_read(b));
}

proof fn lemma_same_event(a: EventRecord, b: EventRecord)
    requires
        event_form(a) == event_form(b),
        event_sound(a),
        event_sound(b),
    ensures
        event_read(a) == event_read(b),
{
    match a {
        EventRecord::Derivation(p) => {
            if let EventRecord::Derivation(q) = b {
                lemma_same_derivation(p, q);
            }
        },
        EventRecord::AttrSet(p) => {
            if let EventRecord::AttrSet(q) = b {
                assert(attr_set_fields(p) == attr_set_fields(q));
                lemma_same_texts(p.attr_path@, q.attr_path@);
                lemma_same_texts(p.attrs@, q.attrs@);
            }
        },
        EventRecord::Error(p) => {
            if let EventRecord::Error(q) = b {
                assert(error_fields(p) == error_fields(q));
                lemma_same_texts(p.attr_path@, q.attr_path@);
            }
        },
        EventRecord::Unknown(_) => {},
    }
}

proof fn lemma_held_client(record: ClientRecord, message: ClientView)
    requires
        holds_client(record, message),
    ensures
        client_sound(record),
{
    if let ClientView::Setup(config, _, _) = message {
        let held = record->Setup_0.config;
        assert forall|i: int| 0 <= i < held.auto_args@.len() implies arg_sound(
            (#[trigger] held.auto_args@[i]).value,
        ) by {
            assert(holds_arg(held.auto_args@[i], config.auto_args[i]));
        }
    }
}

proof fn lemma_held_server(record: ServerRecord, message: ServerMessage)
    requires
        holds_server(record, message),
    ensures
        server_sound(record),
{
    if let ServerRecord::Event(EventRecord::Derivation(held)) = record {
        let d = message->Event_0->Derivation_0;
        assert(holds_derivation(held, d));
        let names = d.outputs.keys();
        assert forall|i: int| 0 <= i < held.outputs@.len() implies path_sound(
            (#[trigger] held.outputs@[i]).path,
        ) by {
            assert(holds_output(held.outputs@[i], names[i], d@.outputs[names[i]]));
        }
    }
}

/// What a master says is what a worker hears: the record that is read from the fields of a
/// message holds what the record that was laid out holds.
pub proof fn law_client_messages_cross(
    message: ClientView,
    sent: ClientRecord,
    received: ClientRecord,
)
    requires
        holds_client(sent, message),
        take_client(put_client(client_form(sent), Seq::empty())) matches Some((form, _)) && form
            == client_form(received),
        client_sound(received),
    ensures
        client_read(received) == client_read(sent),
{
    assert(client_sound(sent)) by {
        lemma_held_client(sent, message);
    }
    law_client_fields_read_back(sent, Seq::empty());
    assert(client_form(received) == client_form(sent));
    match sent {
        ClientRecord::Setup(a) => {
            if let ClientRecord::Setup(b) = received {
                assert(setup_fields(a) == setup_fields(b));
                lemma_same_config(a.config, b.config);
                assert(opt_choice(a.token) == opt_choice(b.token));
                assert(opt_choice(a.expected_store_dir) == opt_choice(b.expected_store_dir));
            }
        },
        ClientRecord::Work(p) => {
            if let ClientRecord::Work(q) = received {
                lemma_same_texts(q@, p@);
            }
        },
        _ => {},
    }
}

/// What a worker says is what its master hears: the record that is read from the fields of a
/// message holds what the record that was laid out holds.
pub proof fn law_server_messages_cross(
    message: ServerMessage,
    sent: ServerRecord,
    received: ServerRecord,
)
    requires
        holds_server(sent, message),
        take_server(put_server(server_form(sent), Seq::empty())) matches Some((form, _)) && form
            == server_form(received),
        server_sound(received),
    ensures
        server_read(received) == server_read(sent),
{
    assert(server_sound(sent)) by {
        lemma_held_server(sent, message);
    }
    law_server_fields_read_back(sent, Seq::empty());
    assert(server_form(received) == server_form(sent));
    if let ServerRecord::Event(a) = sent {
        if let ServerRecord::Event(b) = received {
            assert(event_form(a) == event_form(b));
            lemma_same_event(a, b);
        }
    }
}

} // verus!
