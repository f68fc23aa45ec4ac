//! How a record is laid out as the fields of a message: a list of byte strings.
//!
//! A number is a field of eight bytes. A union is its discriminant and its content, which is
//! empty where it has none. A list is its length and the fields of its items. What is laid out
//! can be told from what follows it, so that records are read from the front.

use vstd::bytes::{
    lemma_auto_spec_u64_to_from_le_bytes, spec_u64_from_le_bytes, spec_u64_to_le_bytes,
    u64_from_le_bytes, u64_to_le_bytes,
};
use vstd::prelude::*;

use crate::wire::{WireError, WireFault};

verus! {

/// The fields of a list.
pub open spec fn fields_view(fields: Seq<Vec<u8>>) -> Seq<Seq<u8>> {
    fields.map_values(|f: Vec<u8>| f@)
}

/// Bytes, and what follows them.
pub open spec fn put_bytes(b: Seq<u8>, rest: Seq<Seq<u8>>) -> Seq<Seq<u8>> {
    seq![b] + rest
}

/// The bytes in front, and what follows them.
pub open spec fn take_bytes(f: Seq<Seq<u8>>) -> Option<(Seq<u8>, Seq<Seq<u8>>)> {
    if f.len() > 0 {
        Some((f[0], f.skip(1)))
    } else {
        None
    }
}

/// A number, and what follows it.
pub open spec fn put_number(n: u64, rest: Seq<Seq<u8>>) -> Seq<Seq<u8>> {
    put_bytes(spec_u64_to_le_bytes(n), rest)
}

/// The number in front, and what follows it.
pub open spec fn take_number(f: Seq<Seq<u8>>) -> Option<(u64, Seq<Seq<u8>>)> {
    if f.len() > 0 && f[0].len() == 8 {
        Some((spec_u64_from_le_bytes(f[0]), f.skip(1)))
    } else {
        None
    }
}

/// A truth value, and what follows it.
pub open spec fn put_flag(b: bool, rest: Seq<Seq<u8>>) -> Seq<Seq<u8>> {
    put_number(
        if b {
            1
        } else {
            0
        },
        rest,
    )
}

/// The truth value in front, and what follows it.
pub open spec fn take_flag(f: Seq<Seq<u8>>) -> Option<(bool, Seq<Seq<u8>>)> {
    match take_number(f) {
        Some((n, rest)) => Some((n != 0, rest)),
        None => None,
    }
}

/// The discriminant in front, and what follows it.
pub open spec fn take_tag(f: Seq<Seq<u8>>) -> Option<(u16, Seq<Seq<u8>>)> {
    match take_number(f) {
        Some((n, rest)) => if n <= 0xffff {
            Some((n as u16, rest))
        } else {
            None
        },
        None => None,
    }
}

/// A union: its discriminant, and its content, which is empty where it has none.
#[verifier::ext_equal]
pub struct Choice {
    /// The discriminant.
    pub tag: u16,
    /// The content.
    pub content: Seq<u8>,
}

impl Choice {
    /// Whether the union has content only where discriminants from `low` up to `high` stand.
    pub open spec fn fits(self, low: u16, high: u16) -> bool {
        low <= self.tag < high || self.content.len() == 0
    }
}

/// A union, and what follows it.
pub open spec fn put_choice(c: Choice, rest: Seq<Seq<u8>>) -> Seq<Seq<u8>> {
    put_number(c.tag as u64, put_bytes(c.content, rest))
}

/// The union in front, and what follows it.
pub open spec fn take_choice(f: Seq<Seq<u8>>, low: u16, high: u16) -> Option<
    (Choice, Seq<Seq<u8>>),
> {
    match take_tag(f) {
        None => None,
        Some((tag, g)) => match take_bytes(g) {
            None => None,
            Some((content, rest)) => {
                let c = Choice { tag, content };
                if c.fits(low, high) {
                    Some((c, rest))
                } else {
                    None
                }
            },
        },
    }
}

/// Items of several fields each, and what follows them.
pub open spec fn put_rows(rows: Seq<Seq<Seq<u8>>>, rest: Seq<Seq<u8>>) -> Seq<Seq<u8>>
    decreases rows.len(),
{
    if rows.len() == 0 {
        rest
    } else {
        rows[0] + put_rows(rows.skip(1), rest)
    }
}

/// The `n` items in front, of `width` fields each, and what follows them.
pub open spec fn take_rows(f: Seq<Seq<u8>>, n: nat, width: nat) -> Option<
    (Seq<Seq<Seq<u8>>>, Seq<Seq<u8>>),
>
    decreases n,
{
    if n == 0 {
        Some((Seq::empty(), f))
    } else if f.len() < width {
        None
    } else {
        match take_rows(f.skip(width as int), (n - 1) as nat, width) {
            None => None,
            Some((rows, rest)) => Some((seq![f.take(width as int)] + rows, rest)),
        }
    }
}

/// A list, and what follows it.
pub open spec fn put_list(rows: Seq<Seq<Seq<u8>>>, rest: Seq<Seq<u8>>) -> Seq<Seq<u8>> {
    put_number(rows.len() as u64, put_rows(rows, rest))
}

/// The list in front, and what follows it.
pub open spec fn take_list(f: Seq<Seq<u8>>, width: nat) -> Option<
    (Seq<Seq<Seq<u8>>>, Seq<Seq<u8>>),
> {
    match take_number(f) {
        None => None,
        Some((n, g)) => take_rows(g, n as nat, width),
    }
}

/// Whether every item has `width` fields, and they can be counted.
pub open spec fn even_rows(rows: Seq<Seq<Seq<u8>>>, width: nat) -> bool {
    &&& rows.len() <= u64::MAX
    &&& forall|i: int| 0 <= i < rows.len() ==> (#[trigger] rows[i]).len() == width
}

/// Whether every item is a name and a union.
pub open spec fn named_rows(rows: Seq<Seq<Seq<u8>>>, low: u16, high: u16) -> bool {
    forall|i: int|
        0 <= i < rows.len() ==> take_choice((#[trigger] rows[i]).skip(1), low, high) is Some
}

/// The list of named unions in front, and what follows it.
pub open spec fn take_named(f: Seq<Seq<u8>>, low: u16, high: u16) -> Option<
    (Seq<Seq<Seq<u8>>>, Seq<Seq<u8>>),
> {
    match take_list(f, 3) {
        None => None,
        Some((rows, rest)) => if named_rows(rows, low, high) {
            Some((rows, rest))
        } else {
            None
        },
    }
}

pub(crate) proof fn lemma_bytes(b: Seq<u8>, rest: Seq<Seq<u8>>)
    ensures
        take_bytes(put_bytes(b, rest)) == Some((b, rest)),
{
    assert(put_bytes(b, rest).skip(1) =~= rest);
}

pub(crate) proof fn lemma_number(n: u64, rest: Seq<Seq<u8>>)
    ensures
        take_number(put_number(n, rest)) == Some((n, rest)),
{
    lemma_auto_spec_u64_to_from_le_bytes();
    assert(put_number(n, rest).skip(1) =~= rest);
    assert(put_number(n, rest)[0] == spec_u64_to_le_bytes(n));
}

pub(crate) proof fn lemma_flag(b: bool, rest: Seq<Seq<u8>>)
    ensures
        take_flag(put_flag(b, rest)) == Some((b, rest)),
{
    lemma_number(
        if b {
            1
        } else {
            0
        },
        rest,
    );
}

pub(crate) proof fn lemma_tag(tag: u16, rest: Seq<Seq<u8>>)
    ensures
        take_tag(put_number(tag as u64, rest)) == Some((tag, rest)),
{
    lemma_number(tag as u64, rest);
}

pub(crate) proof fn lemma_choice(c: Choice, low: u16, high: u16, rest: Seq<Seq<u8>>)
    requires
        c.fits(low, high),
    ensures
        take_choice(put_choice(c, rest), low, high) == Some((c, rest)),
{
    lemma_tag(c.tag, put_bytes(c.content, rest));
    lemma_bytes(c.content, rest);
}

proof fn lemma_rows(rows: Seq<Seq<Seq<u8>>>, width: nat, rest: Seq<Seq<u8>>)
    requires
        even_rows(rows, width),
    ensures
        take_rows(put_rows(rows, rest), rows.len(), width) == Some((rows, rest)),
    decreases rows.len(),
{
    if rows.len() == 0 {
        assert(rows =~= Seq::empty());
    } else {
        let tail = rows.skip(1);
        assert(even_rows(tail, width)) by {
            assert forall|i: int| 0 <= i < tail.len() implies (#[trigger] tail[i]).len()
                == width by {
                assert(tail[i] == rows[i + 1]);
            }
        }
        lemma_rows(tail, width, rest);
        let f = put_rows(rows, rest);
        assert(rows[0].len() == width);
        assert(f.skip(width as int) =~= put_rows(tail, rest));
        assert(f.take(width as int) =~= rows[0]);
        assert(seq![rows[0]] + tail =~= rows);
    }
}

pub(crate) proof fn lemma_list(rows: Seq<Seq<Seq<u8>>>, width: nat, rest: Seq<Seq<u8>>)
    requires
        even_rows(rows, width),
    ensures
        take_list(put_list(rows, rest), width) == Some((rows, rest)),
{
    lemma_number(rows.len() as u64, put_rows(rows, rest));
    lemma_rows(rows, width, rest);
}

proof fn lemma_rows_even(f: Seq<Seq<u8>>, n: nat, width: nat)
    ensures
        take_rows(f, n, width) matches Some((rows, _)) ==> rows.len() == n && forall|i: int|
            0 <= i < rows.len() ==> (#[trigger] rows[i]).len() == width,
    decreases n,
{
    if n > 0 && f.len() >= width {
        lemma_rows_even(f.skip(width as int), (n - 1) as nat, width);
    }
}

pub(crate) fn copy_bytes(b: &Vec<u8>) -> (r: Vec<u8>)
    ensures
        r@ == b@,
{
    let mut out: Vec<u8> = Vec::new();
    let mut i: usize = 0;
    while i < b.len()
        invariant
            i <= b.len(),
            out@ == b@.take(i as int),
        decreases b.len() - i,
    {
        out.push(b[i]);
        proof {
            assert(b@.take(i + 1) =~= b@.take(i as int).push(b@[i as int]));
        }
        i += 1;
    }
    proof {
        assert(b@.take(i as int) =~= b@);
    }
    out
}

pub(crate) fn push_bytes(out: &mut Vec<Vec<u8>>, b: &Vec<u8>)
    ensures
        forall|rest: Seq<Seq<u8>>|
            #![trigger fields_view(final(out)@) + rest]
            fields_view(final(out)@) + rest == fields_view(old(out)@) + put_bytes(b@, rest),
{
    let copy = copy_bytes(b);
    out.push(copy);
    proof {
        assert(fields_view(out@) =~= fields_view(old(out)@).push(b@));
        assert forall|rest: Seq<Seq<u8>>|
            #![trigger fields_view(out@) + rest]
            fields_view(out@) + rest == fields_view(old(out)@) + put_bytes(b@, rest) by {
            assert(fields_view(out@) + rest =~= fields_view(old(out)@) + put_bytes(b@, rest));
        }
    }
}

pub(crate) fn push_number(out: &mut Vec<Vec<u8>>, n: u64)
    ensures
        forall|rest: Seq<Seq<u8>>|
            #![trigger fields_view(final(out)@) + rest]
            fields_view(final(out)@) + rest == fields_view(old(out)@) + put_number(n, rest),
{
    push_bytes(out, &u64_to_le_bytes(n));
}

pub(crate) fn push_flag(out: &mut Vec<Vec<u8>>, b: bool)
    ensures
        forall|rest: Seq<Seq<u8>>|
            #![trigger fields_view(final(out)@) + rest]
            fields_view(final(out)@) + rest == fields_view(old(out)@) + put_flag(b, rest),
{
    push_number(
        out,
        if b {
            1
        } else {
            0
        },
    );
}

pub(crate) fn push_choice(out: &mut Vec<Vec<u8>>, tag: u16, content: &Vec<u8>)
    ensures
        forall|rest: Seq<Seq<u8>>|
            #![trigger fields_view(final(out)@) + rest]
            fields_view(final(out)@) + rest == fields_view(old(out)@) + put_choice(
                Choice { tag, content: content@ },
                rest,
            ),
{
    push_number(out, tag as u64);
    push_bytes(out, content);
}

/// The items of a list, each as its fields.
pub open spec fn rows_view(rows: Seq<Vec<Vec<u8>>>) -> Seq<Seq<Seq<u8>>> {
    rows.map_values(|r: Vec<Vec<u8>>| fields_view(r@))
}

fn push_row(out: &mut Vec<Vec<u8>>, row: &Vec<Vec<u8>>)
    ensures
        forall|rest: Seq<Seq<u8>>|
            #![trigger fields_view(final(out)@) + rest]
            fields_view(final(out)@) + rest == fields_view(old(out)@) + (fields_view(row@) + rest),
{
    let ghost base = fields_view(out@);
    let ghost all = fields_view(row@);
    let mut i: usize = 0;
    proof {
        assert(base + all.take(0) =~= base);
    }
    while i < row.len()
        invariant
            i <= row.len(),
            all == fields_view(row@),
            fields_view(out@) == base + all.take(i as int),
        decreases row.len() - i,
    {
        let ghost before = fields_view(out@);
        let copy = copy_bytes(&row[i]);
        out.push(copy);
        proof {
            assert(fields_view(out@) =~= before.push(all[i as int]));
            assert(base + all.take(i + 1) =~= (base + all.take(i as int)).push(all[i as int]));
        }
        i += 1;
    }
    proof {
        assert(all.take(i as int) =~= all);
        assert forall|rest: Seq<Seq<u8>>|
            #![trigger fields_view(out@) + rest]
            fields_view(out@) + rest == base + (all + rest) by {
            assert(fields_view(out@) + rest =~= base + (all + rest));
        }
    }
}

pub(crate) fn push_list(out: &mut Vec<Vec<u8>>, rows: &Vec<Vec<Vec<u8>>>)
    ensures
        forall|rest: Seq<Seq<u8>>|
            #![trigger fields_view(final(out)@) + rest]
            fields_view(final(out)@) + rest == fields_view(old(out)@) + put_list(
                rows_view(rows@),
                rest,
            ),
{
    let ghost base = fields_view(out@);
    let ghost all = rows_view(rows@);
    push_number(out, rows.len() as u64);
    let mut i: usize = 0;
    proof {
        assert(all.skip(0) =~= all);
        assert forall|rest: Seq<Seq<u8>>|
            #![trigger put_rows(all.skip(0), rest)]
            fields_view(out@) + put_rows(all.skip(0), rest) == base + put_list(all, rest) by {}
    }
    while i < rows.len()
        invariant
            i <= rows.len(),
            all == rows_view(rows@),
            forall|rest: Seq<Seq<u8>>|
                #![trigger put_rows(all.skip(i as int), rest)]
                fields_view(out@) + put_rows(all.skip(i as int), rest) == base + put_list(
                    all,
                    rest,
                ),
        decreases rows.len() - i,
    {
        let ghost before = fields_view(out@);
        push_row(out, &rows[i]);
        proof {
            let here = all.skip(i as int);
            assert(here[0] == fields_view(rows@[i as int]@));
            assert(here.skip(1) =~= all.skip(i + 1));
            assert forall|rest: Seq<Seq<u8>>|
                #![trigger put_rows(all.skip(i + 1), rest)]
                fields_view(out@) + put_rows(all.skip(i + 1), rest) == base + put_list(
                    all,
                    rest,
                ) by {
                let follow = put_rows(all.skip(i + 1), rest);
                assert(fields_view(out@) + follow == before + (here[0] + follow));
                assert(put_rows(here, rest) == here[0] + follow);
            }
        }
        i += 1;
    }
    proof {
        assert forall|rest: Seq<Seq<u8>>|
            #![trigger fields_view(out@) + rest]
            fields_view(out@) + rest == base + put_list(all, rest) by {
            assert(all.skip(i as int).len() == 0);
            assert(put_rows(all.skip(i as int), rest) == rest);
        }
    }
}

/// The fields of a message, of which some were read.
pub(crate) struct Cursor<'a> {
    pub(crate) fields: &'a Vec<Vec<u8>>,
    pub(crate) at: usize,
}

impl<'a> Cursor<'a> {
    pub(crate) open spec fn valid(self) -> bool {
        self.at <= self.fields@.len()
    }

    /// What was not read yet.
    pub(crate) open spec fn rest(self) -> Seq<Seq<u8>> {
        fields_view(self.fields@).skip(self.at as int)
    }

    pub(crate) fn bytes(&mut self) -> (r: Result<Vec<u8>, WireError>)
        requires
            old(self).valid(),
        ensures
            final(self).valid(),
            match r {
                Ok(b) => take_bytes(old(self).rest()) == Some((b@, final(self).rest())),
                Err(e) => take_bytes(old(self).rest()) is None && e@ == WireFault::Malformed,
            },
    {
        if self.at >= self.fields.len() {
            return Err(WireError::Malformed);
        }
        let b = copy_bytes(&self.fields[self.at]);
        self.at = self.at + 1;
        proof {
            assert(old(self).rest().skip(1) =~= self.rest());
        }
        Ok(b)
    }

    pub(crate) fn number(&mut self) -> (r: Result<u64, WireError>)
        requires
            old(self).valid(),
        ensures
            final(self).valid(),
            match r {
                Ok(n) => take_number(old(self).rest()) == Some((n, final(self).rest())),
                Err(e) => take_number(old(self).rest()) is None && e@ == WireFault::Malformed,
            },
    {
        let b = self.bytes()?;
        if b.len() != 8 {
            return Err(WireError::Malformed);
        }
        Ok(u64_from_le_bytes(b.as_slice()))
    }

    pub(crate) fn flag(&mut self) -> (r: Result<bool, WireError>)
        requires
            old(self).valid(),
        ensures
            final(self).valid(),
            match r {
                Ok(b) => take_flag(old(self).rest()) == Some((b, final(self).rest())),
                Err(e) => take_flag(old(self).rest()) is None && e@ == WireFault::Malformed,
            },
    {
        let n: u64 = self.number()?;
        Ok(n != 0)
    }

    pub(crate) fn tag(&mut self) -> (r: Result<u16, WireError>)
        requires
            old(self).valid(),
        ensures
            final(self).valid(),
            match r {
                Ok(tag) => take_tag(old(self).rest()) == Some((tag, final(self).rest())),
                Err(e) => take_tag(old(self).rest()) is None && e@ == WireFault::Malformed,
            },
    {
        let n: u64 = self.number()?;
        if n > 0xffff {
            return Err(WireError::Malformed);
        }
        Ok(n as u16)
    }

    pub(crate) fn choice(&mut self, low: u16, high: u16) -> (r: Result<(u16, Vec<u8>), WireError>)
        requires
            old(self).valid(),
        ensures
            final(self).valid(),
            match r {
                Ok((tag, content)) => take_choice(old(self).rest(), low, high) == Some(
                    (Choice { tag, content: content@ }, final(self).rest()),
                ),
                Err(e) => take_choice(old(self).rest(), low, high) is None && e@
                    == WireFault::Malformed,
            },
    {
        let tag: u16 = self.tag()?;
        let content = self.bytes()?;
        if !(low <= tag && tag < high) && content.len() != 0 {
            return Err(WireError::Malformed);
        }
        Ok((tag, content))
    }

    fn row(&mut self, width: usize) -> (r: Result<Vec<Vec<u8>>, WireError>)
        requires
            old(self).valid(),
        ensures
            final(self).valid(),
            match r {
                Ok(row) => {
                    &&& old(self).rest().len() >= width
                    &&& fields_view(row@) == old(self).rest().take(width as int)
                    &&& final(self).rest() == old(self).rest().skip(width as int)
                },
                Err(e) => old(self).rest().len() < width && e@ == WireFault::Malformed,
            },
    {
        let mut out: Vec<Vec<u8>> = Vec::new();
        let ghost start = self.rest();
        proof {
            assert(start.skip(0) =~= start);
            assert(fields_view(out@) =~= start.take(0));
        }
        let mut i: usize = 0;
        while i < width
            invariant
                i <= width,
                i <= start.len(),
                start == old(self).rest(),
                self.valid(),
                self.rest() == start.skip(i as int),
                fields_view(out@) == start.take(i as int),
            decreases width - i,
        {
            let ghost before = fields_view(out@);
            let b = self.bytes()?;
            proof {
                assert(start.skip(i as int).skip(1) =~= start.skip(i + 1));
                assert(b@ == start[i as int]);
            }
            out.push(b);
            proof {
                assert(fields_view(out@) =~= before.push(b@));
                assert(start.take(i + 1) =~= start.take(i as int).push(start[i as int]));
            }
            i += 1;
        }
        Ok(out)
    }

    pub(crate) fn list(&mut self, width: usize) -> (r: Result<Vec<Vec<Vec<u8>>>, WireError>)
        requires
            old(self).valid(),
        ensures
            final(self).valid(),
            match r {
                Ok(rows) => {
                    &&& take_list(old(self).rest(), width as nat) == Some(
                        (rows_view(rows@), final(self).rest()),
                    )
                    &&& even_rows(rows_view(rows@), width as nat)
                },
                Err(e) => take_list(old(self).rest(), width as nat) is None && e@
                    == WireFault::Malformed,
            },
    {
        let n: u64 = self.number()?;
        let mut out: Vec<Vec<Vec<u8>>> = Vec::new();
        let ghost start = self.rest();
        let mut i: u64 = 0;
        proof {
            assert(rows_view(out@) =~= Seq::empty());
            lemma_rows_even(start, n as nat, width as nat);
            if let Some((rows, rest)) = take_rows(start, n as nat, width as nat) {
                assert(Seq::<Seq<Seq<u8>>>::empty() + rows =~= rows);
            }
        }
        while i < n
            invariant
                i <= n,
                take_number(old(self).rest()) == Some((n, start)),
                self.valid(),
                take_rows(start, n as nat, width as nat) == (match take_rows(
                    self.rest(),
                    (n - i) as nat,
                    width as nat,
                ) {
                    None => None::<(Seq<Seq<Seq<u8>>>, Seq<Seq<u8>>)>,
                    Some((rows, rest)) => Some((rows_view(out@) + rows, rest)),
                }),
            decreases n - i,
        {
            let ghost before = rows_view(out@);
            let ghost here = self.rest();
            let row = self.row(width)?;
            out.push(row);
            proof {
                assert(rows_view(out@) =~= before.push(fields_view(row@)));
                if let Some((rows, rest)) = take_rows(
                    self.rest(),
                    (n - i - 1) as nat,
                    width as nat,
                ) {
                    assert(before + (seq![here.take(width as int)] + rows) =~= rows_view(out@)
                        + rows);
                }
            }
            i += 1;
        }
        proof {
            assert(rows_view(out@) + Seq::<Seq<Seq<u8>>>::empty() =~= rows_view(out@));
        }
        Ok(out)
    }
}

} // verus!
