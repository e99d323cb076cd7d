//! Rewriting the four $STANDARD_INFORMATION and four $FILE_NAME timestamps
//! of one MFT record, as a list of byte writes on the image.

use vstd::prelude::*;
use crate::bytestream::{le_bytes_of, u64_to_le_bytes, DecodeError};
use crate::mft::{
    record_has_name, spec_common, unix_to_ole2, MftFileRecord, NtfsDatetime, RecordAttribute,
    MAX_OLE2_UNIX_SECONDS,
};

verus! {

/// A request to set every timestamp of the record named `file_name` to the
/// Unix time `timestamp`.
#[derive(Debug)]
pub enum Timestomp {
    Timestomp { file_name: String, timestamp: u64 },
}

/// The image `img` after the byte writes `ws`, applied in order; a write
/// past the end of the image changes nothing.
pub open spec fn apply_writes(img: Seq<u8>, ws: Seq<(u64, u8)>) -> Seq<u8>
    decreases ws.len(),
{
    if ws.len() == 0 {
        img
    } else {
        let prev = apply_writes(img, ws.drop_last());
        let w = ws.last();
        if (w.0 as int) < prev.len() {
            prev.update(w.0 as int, w.1)
        } else {
            prev
        }
    }
}

/// The value that the last write to position `q` among `ws` stores.
pub open spec fn last_write(ws: Seq<(u64, u8)>, q: int) -> Option<u8>
    decreases ws.len(),
{
    if ws.len() == 0 {
        None
    } else if ws.last().0 as int == q {
        Some(ws.last().1)
    } else {
        last_write(ws.drop_last(), q)
    }
}

/// Each byte of a written image holds the last value written to it, or
/// its old value when nothing was written there.
pub proof fn lemma_apply_writes_at(img: Seq<u8>, ws: Seq<(u64, u8)>, q: int)
    ensures
        apply_writes(img, ws).len() == img.len(),
        0 <= q < img.len() ==> apply_writes(img, ws)[q] == match last_write(ws, q) {
            Some(b) => b,
            None => img[q],
        },
    decreases ws.len(),
{
    if ws.len() > 0 {
        lemma_apply_writes_at(img, ws.drop_last(), q);
    }
}

/// Whether two write lists touch the same positions in the same order.
pub open spec fn same_positions(a: Seq<(u64, u8)>, b: Seq<(u64, u8)>) -> bool {
    a.len() == b.len() && forall|i: int| 0 <= i < a.len() ==> (#[trigger] a[i]).0 == b[i].0
}

proof fn lemma_last_write_same_positions(a: Seq<(u64, u8)>, b: Seq<(u64, u8)>, q: int)
    requires
        same_positions(a, b),
    ensures
        last_write(a, q) is Some <==> last_write(b, q) is Some,
    decreases a.len(),
{
    if a.len() > 0 {
        assert(a.last().0 == b.last().0) by {
            assert(a[a.len() - 1].0 == b[a.len() - 1].0);
        }
        assert(same_positions(a.drop_last(), b.drop_last())) by {
            assert forall|i: int| 0 <= i < a.len() - 1 implies (#[trigger] a.drop_last()[i]).0 == b.drop_last()[i].0 by {
                assert(a[i].0 == b[i].0);
            }
        }
        lemma_last_write_same_positions(a.drop_last(), b.drop_last(), q);
    }
}

/// Writing over exactly the positions of an earlier write list erases it:
/// applying `a` and then `b` equals applying `b` alone.
pub proof fn lemma_overwrite(img: Seq<u8>, a: Seq<(u64, u8)>, b: Seq<(u64, u8)>)
    requires
        same_positions(a, b),
    ensures
        apply_writes(apply_writes(img, a), b) == apply_writes(img, b),
{
    let once = apply_writes(img, b);
    let twice = apply_writes(apply_writes(img, a), b);
    lemma_apply_writes_at(img, a, 0);
    lemma_apply_writes_at(img, b, 0);
    lemma_apply_writes_at(apply_writes(img, a), b, 0);
    assert forall|q: int| 0 <= q < img.len() implies twice[q] == once[q] by {
        lemma_apply_writes_at(img, a, q);
        lemma_apply_writes_at(img, b, q);
        lemma_apply_writes_at(apply_writes(img, a), b, q);
        lemma_last_write_same_positions(a, b, q);
    }
    assert(twice =~= once);
}

/// The 64 byte writes that set the four $STANDARD_INFORMATION timestamps
/// (at `si`) and the four $FILE_NAME timestamps (after the 8-byte parent
/// reference at `fname`) to the OLE2 value `ole2`, each little-endian.
pub open spec fn stomp_writes(si: u64, fname: u64, ole2: u64) -> Seq<(u64, u8)> {
    Seq::new(
        64,
        |j: int|
            if j < 32 {
                ((si + j) as u64, le_bytes_of(ole2 as int, 8)[j % 8])
            } else {
                ((fname + 8 + (j - 32)) as u64, le_bytes_of(ole2 as int, 8)[j % 8])
            },
    )
}

/// Timestomp idempotence: on one record, stomping with `t1` and then with
/// `t2` leaves the image as stomping with `t2` alone; with `t1 == t2`,
/// stomping twice equals stomping once.
pub proof fn lemma_timestomp_last_wins(img: Seq<u8>, si: u64, fname: u64, t1: u64, t2: u64)
    ensures
        apply_writes(apply_writes(img, stomp_writes(si, fname, t1)), stomp_writes(si, fname, t2))
            == apply_writes(img, stomp_writes(si, fname, t2)),
{
    lemma_overwrite(img, stomp_writes(si, fname, t1), stomp_writes(si, fname, t2));
}

/// The target of a name is unique: two target offset pairs are the same.
pub proof fn lemma_target_unique(records: Seq<MftFileRecord>, name: Seq<char>, s1: u64, f1: u64, s2: u64, f2: u64)
    requires
        is_target(records, name, s1, f1),
        is_target(records, name, s2, f2),
    ensures
        s1 == s2 && f1 == f2,
{
    let (k1, i1, j1) = choose|k: int, i: int, j: int| {
        &&& #[trigger] is_first_named(records, k, name)
        &&& #[trigger] is_first_of_type(records[k].attributes@, i, 0x10)
        &&& #[trigger] is_first_of_type(records[k].attributes@, j, 0x30)
        &&& records[k].attributes@[i].offset == s1
        &&& records[k].attributes@[j].offset == f1
    };
    let (k2, i2, j2) = choose|k: int, i: int, j: int| {
        &&& #[trigger] is_first_named(records, k, name)
        &&& #[trigger] is_first_of_type(records[k].attributes@, i, 0x10)
        &&& #[trigger] is_first_of_type(records[k].attributes@, j, 0x30)
        &&& records[k].attributes@[i].offset == s2
        &&& records[k].attributes@[j].offset == f2
    };
    if k1 < k2 {
        assert(!record_has_name(records[k1], name));
    } else if k2 < k1 {
        assert(!record_has_name(records[k2], name));
    }
    let a = records[k1].attributes@;
    if i1 < i2 {
        assert(spec_common(a[i1].header).attribute_type != 0x10);
    } else if i2 < i1 {
        assert(spec_common(a[i2].header).attribute_type != 0x10);
    }
    if j1 < j2 {
        assert(spec_common(a[j1].header).attribute_type != 0x30);
    } else if j2 < j1 {
        assert(spec_common(a[j2].header).attribute_type != 0x30);
    }
}

/// Timestomp idempotence on the records of an image: stomping a name with
/// `t1` and then with `t2` leaves the image as stomping with `t2` alone, so
/// stomping twice with one timestamp equals stomping once.
pub proof fn lemma_timestomp_mft_last_wins(
    img: Seq<u8>,
    records: Seq<MftFileRecord>,
    name: Seq<char>,
    t1: u64,
    t2: u64,
    ws1: Seq<(u64, u8)>,
    ws2: Seq<(u64, u8)>,
)
    requires
        planned_writes(records, name, t1, ws1),
        planned_writes(records, name, t2, ws2),
    ensures
        apply_writes(apply_writes(img, ws1), ws2) == apply_writes(img, ws2),
{
    let (s1, f1) = choose|si: u64, fname: u64| {
        &&& #[trigger] is_target(records, name, si, fname)
        &&& t1 <= MAX_OLE2_UNIX_SECONDS
        &&& si <= u64::MAX - 32 && fname <= u64::MAX - 40
        &&& ws1 == stomp_writes(si, fname, unix_to_ole2(t1 as int) as u64)
    };
    let (s2, f2) = choose|si: u64, fname: u64| {
        &&& #[trigger] is_target(records, name, si, fname)
        &&& t2 <= MAX_OLE2_UNIX_SECONDS
        &&& si <= u64::MAX - 32 && fname <= u64::MAX - 40
        &&& ws2 == stomp_writes(si, fname, unix_to_ole2(t2 as int) as u64)
    };
    lemma_target_unique(records, name, s1, f1, s2, f2);
    lemma_overwrite(img, ws1, ws2);
}

/// A name with a target is not missing.
pub proof fn lemma_target_not_missing(records: Seq<MftFileRecord>, name: Seq<char>, si: u64, fname: u64)
    requires
        is_target(records, name, si, fname),
    ensures
        !target_missing(records, name),
{
    let (k, i, j) = choose|k: int, i: int, j: int| {
        &&& #[trigger] is_first_named(records, k, name)
        &&& #[trigger] is_first_of_type(records[k].attributes@, i, 0x10)
        &&& #[trigger] is_first_of_type(records[k].attributes@, j, 0x30)
        &&& records[k].attributes@[i].offset == si
        &&& records[k].attributes@[j].offset == fname
    };
    assert(record_has_name(records[k], name));
    if target_missing(records, name) {
        let k2 = choose|k2: int| {
            &&& #[trigger] is_first_named(records, k2, name)
            &&& (forall|i: int| 0 <= i < records[k2].attributes@.len()
                ==> spec_common((#[trigger] records[k2].attributes@[i]).header).attribute_type != 0x10)
                || (forall|i: int| 0 <= i < records[k2].attributes@.len()
                ==> spec_common((#[trigger] records[k2].attributes@[i]).header).attribute_type != 0x30)
        };
        if k2 < k {
            assert(!record_has_name(records[k2], name));
        } else if k < k2 {
            assert(!record_has_name(records[k], name));
        }
        assert(spec_common(records[k].attributes@[i].header).attribute_type == 0x10);
        assert(spec_common(records[k].attributes@[j].header).attribute_type == 0x30);
    }
}

/// A plan cannot both succeed and fail, and a successful plan's writes are
/// unique.
pub proof fn lemma_plan_deterministic(
    records: Seq<MftFileRecord>,
    name: Seq<char>,
    t: u64,
    ws: Seq<(u64, u8)>,
    ws2: Seq<(u64, u8)>,
    e: DecodeError,
)
    requires
        planned_writes(records, name, t, ws),
    ensures
        !plan_error(records, name, t, e),
        planned_writes(records, name, t, ws2) ==> ws2 == ws,
{
    let (si, fname) = choose|si: u64, fname: u64| {
        &&& #[trigger] is_target(records, name, si, fname)
        &&& t <= MAX_OLE2_UNIX_SECONDS
        &&& si <= u64::MAX - 32 && fname <= u64::MAX - 40
        &&& ws == stomp_writes(si, fname, unix_to_ole2(t as int) as u64)
    };
    lemma_target_not_missing(records, name, si, fname);
    if plan_error(records, name, t, e) && e == DecodeError::Integrity {
        let (s2, f2) = choose|s2: u64, f2: u64| #[trigger] is_target(records, name, s2, f2) && (s2 > u64::MAX - 32 || f2 > u64::MAX - 40);
        lemma_target_unique(records, name, si, fname, s2, f2);
    }
    if planned_writes(records, name, t, ws2) {
        let (s2, f2) = choose|s2: u64, f2: u64| {
            &&& #[trigger] is_target(records, name, s2, f2)
            &&& t <= MAX_OLE2_UNIX_SECONDS
            &&& s2 <= u64::MAX - 32 && f2 <= u64::MAX - 40
            &&& ws2 == stomp_writes(s2, f2, unix_to_ole2(t as int) as u64)
        };
        lemma_target_unique(records, name, si, fname, s2, f2);
    }
}

/// The writes of a timestomp call's result, as a sequence.
pub open spec fn writes_view(r: Result<Vec<(u64, u8)>, DecodeError>) -> Result<Seq<(u64, u8)>, DecodeError> {
    match r {
        Ok(ws) => Ok(ws@),
        Err(e) => Err(e),
    }
}

/// What one timestomp of `name` with `t` may leave of the image `img`: the
/// planned writes applied, or, when the plan fails, the image unchanged.
pub open spec fn stomp_outcome(
    img: Seq<u8>,
    records: Seq<MftFileRecord>,
    name: Seq<char>,
    t: u64,
    out: Result<Seq<(u64, u8)>, DecodeError>,
    after: Seq<u8>,
) -> bool {
    match out {
        Ok(ws) => planned_writes(records, name, t, ws) && after == apply_writes(img, ws),
        Err(e) => plan_error(records, name, t, e) && after == img,
    }
}

/// Timestomp idempotence: stomping a name twice with one timestamp leaves
/// the image as stomping it once, whether the plan succeeds or fails.
pub proof fn lemma_timestomp_idempotent(
    img: Seq<u8>,
    records: Seq<MftFileRecord>,
    name: Seq<char>,
    t: u64,
    o1: Result<Seq<(u64, u8)>, DecodeError>,
    a1: Seq<u8>,
    o2: Result<Seq<(u64, u8)>, DecodeError>,
    a2: Seq<u8>,
)
    requires
        stomp_outcome(img, records, name, t, o1, a1),
        stomp_outcome(a1, records, name, t, o2, a2),
    ensures
        a2 == a1,
{
    match (o1, o2) {
        (Ok(ws1), Ok(ws2)) => {
            lemma_plan_deterministic(records, name, t, ws1, ws2, DecodeError::Io);
            lemma_overwrite(img, ws1, ws1);
        },
        (Ok(ws1), Err(e2)) => {
            lemma_plan_deterministic(records, name, t, ws1, ws1, e2);
        },
        (Err(e1), Ok(ws2)) => {
            lemma_plan_deterministic(records, name, t, ws2, ws2, e1);
        },
        (Err(_), Err(_)) => {},
    }
}

/// The last timestomp wins: stomping with `t1` and then `t2` leaves the
/// image as stomping with `t2` alone. This fails only where `t2` is past
/// the OLE2 range and `t1` is not (the second call then changes nothing),
/// so that case is left out.
pub proof fn lemma_timestomp_last_wins_outcomes(
    img: Seq<u8>,
    records: Seq<MftFileRecord>,
    name: Seq<char>,
    t1: u64,
    t2: u64,
    o1: Result<Seq<(u64, u8)>, DecodeError>,
    a1: Seq<u8>,
    o2: Result<Seq<(u64, u8)>, DecodeError>,
    a2: Seq<u8>,
    o3: Result<Seq<(u64, u8)>, DecodeError>,
    a3: Seq<u8>,
)
    requires
        t2 <= MAX_OLE2_UNIX_SECONDS || t1 > MAX_OLE2_UNIX_SECONDS,
        stomp_outcome(img, records, name, t1, o1, a1),
        stomp_outcome(a1, records, name, t2, o2, a2),
        stomp_outcome(img, records, name, t2, o3, a3),
    ensures
        a2 == a3,
{
    match o3 {
        Ok(ws3) => {
            match o2 {
                Ok(ws2) => {
                    lemma_plan_deterministic(records, name, t2, ws3, ws2, DecodeError::Io);
                    match o1 {
                        Ok(ws1) => {
                            lemma_timestomp_mft_last_wins(img, records, name, t1, t2, ws1, ws3);
                        },
                        Err(_) => {},
                    }
                },
                Err(e2) => {
                    lemma_plan_deterministic(records, name, t2, ws3, ws3, e2);
                },
            }
        },
        Err(e3) => {
            match o2 {
                Ok(ws2) => {
                    lemma_plan_deterministic(records, name, t2, ws2, ws2, e3);
                },
                Err(_) => {
                    match o1 {
                        Ok(ws1) => {
                            let (si, fname) = choose|si: u64, fname: u64| {
                                &&& #[trigger] is_target(records, name, si, fname)
                                &&& t1 <= MAX_OLE2_UNIX_SECONDS
                                &&& si <= u64::MAX - 32 && fname <= u64::MAX - 40
                                &&& ws1 == stomp_writes(si, fname, unix_to_ole2(t1 as int) as u64)
                            };
                            lemma_target_not_missing(records, name, si, fname);
                            if e3 == DecodeError::Integrity {
                                let (s2, f2) = choose|s2: u64, f2: u64| #[trigger] is_target(records, name, s2, f2) && (s2 > u64::MAX - 32 || f2 > u64::MAX - 40);
                                lemma_target_unique(records, name, si, fname, s2, f2);
                            }
                        },
                        Err(_) => {},
                    }
                },
            }
        },
    }
}

/// Applies the byte writes `writes` to `image`.
pub fn apply_image_writes(image: &mut Vec<u8>, writes: &Vec<(u64, u8)>)
    ensures
        final(image)@ == apply_writes(old(image)@, writes@),
{
    let mut i: usize = 0;
    while i < writes.len()
        invariant
            i <= writes@.len(),
            image@ == apply_writes(old(image)@, writes@.subrange(0, i as int)),
        decreases writes@.len() - i,
    {
        let (pos, byte) = writes[i];
        proof {
            lemma_apply_writes_at(old(image)@, writes@.subrange(0, i as int), 0);
        }
        if pos < image.len() as u64 {
            image.set(pos as usize, byte);
        }
        assert(writes@.subrange(0, i + 1).drop_last() =~= writes@.subrange(0, i as int));
        i = i + 1;
    }
    assert(writes@.subrange(0, writes@.len() as int) =~= writes@);
}

/// The 64 byte writes that stomp the record whose $STANDARD_INFORMATION
/// body is at `si` and whose $FILE_NAME body is at `fname`.
pub fn timestomp_writes(si: u64, fname: u64, ole2: u64) -> (r: Vec<(u64, u8)>)
    requires
        si + 32 <= u64::MAX,
        fname + 40 <= u64::MAX,
    ensures
        r@ == stomp_writes(si, fname, ole2),
{
    let bytes = u64_to_le_bytes(ole2);
    let mut r: Vec<(u64, u8)> = Vec::with_capacity(64);
    let mut j: usize = 0;
    while j < 64
        invariant
            j <= 64,
            si + 32 <= u64::MAX,
            fname + 40 <= u64::MAX,
            bytes@ == le_bytes_of(ole2 as int, 8),
            r@ =~= stomp_writes(si, fname, ole2).subrange(0, j as int),
        decreases 64 - j,
    {
        let pos = if j < 32 {
            si + j as u64
        } else {
            fname + 8 + (j as u64 - 32)
        };
        r.push((pos, bytes[j % 8]));
        j = j + 1;
    }
    r
}

/// Whether record `k` is the first of `records` with a $FILE_NAME `name`.
pub open spec fn is_first_named(records: Seq<MftFileRecord>, k: int, name: Seq<char>) -> bool {
    &&& 0 <= k < records.len()
    &&& record_has_name(records[k], name)
    &&& forall|j: int| 0 <= j < k ==> !record_has_name(#[trigger] records[j], name)
}

/// Whether attribute `i` is the first of `attrs` whose header has type `t`.
pub open spec fn is_first_of_type(attrs: Seq<RecordAttribute>, i: int, t: u32) -> bool {
    &&& 0 <= i < attrs.len()
    &&& spec_common(attrs[i].header).attribute_type == t
    &&& forall|j: int| 0 <= j < i ==> spec_common((#[trigger] attrs[j]).header).attribute_type != t
}

/// The first attribute of `attrs` whose header has type `t`.
fn first_of_type(attrs: &Vec<RecordAttribute>, t: u32) -> (r: Option<usize>)
    ensures
        match r {
            Some(i) => is_first_of_type(attrs@, i as int, t),
            None => forall|j: int| 0 <= j < attrs@.len() ==> spec_common((#[trigger] attrs@[j]).header).attribute_type != t,
        },
{
    let mut i: usize = 0;
    while i < attrs.len()
        invariant
            i <= attrs@.len(),
            forall|j: int| 0 <= j < i ==> spec_common((#[trigger] attrs@[j]).header).attribute_type != t,
        decreases attrs@.len() - i,
    {
        if attrs[i].header.attribute_type() == t {
            return Some(i);
        }
        i = i + 1;
    }
    None
}

/// No record can be stomped for `name`: none has a $FILE_NAME called
/// `name`, or the first that has lacks a $STANDARD_INFORMATION or a
/// $FILE_NAME header.
pub open spec fn target_missing(records: Seq<MftFileRecord>, name: Seq<char>) -> bool {
    ||| forall|k: int| 0 <= k < records.len() ==> !record_has_name(#[trigger] records[k], name)
    ||| exists|k: int| {
        &&& #[trigger] is_first_named(records, k, name)
        &&& (forall|i: int| 0 <= i < records[k].attributes@.len()
            ==> spec_common((#[trigger] records[k].attributes@[i]).header).attribute_type != 0x10)
            || (forall|i: int| 0 <= i < records[k].attributes@.len()
            ==> spec_common((#[trigger] records[k].attributes@[i]).header).attribute_type != 0x30)
    }
}

/// The body offsets `si` and `fname` are those of the first
/// $STANDARD_INFORMATION and first $FILE_NAME of the first record named
/// `name`.
pub open spec fn is_target(records: Seq<MftFileRecord>, name: Seq<char>, si: u64, fname: u64) -> bool {
    exists|k: int, i: int, j: int| {
        &&& #[trigger] is_first_named(records, k, name)
        &&& #[trigger] is_first_of_type(records[k].attributes@, i, 0x10)
        &&& #[trigger] is_first_of_type(records[k].attributes@, j, 0x30)
        &&& records[k].attributes@[i].offset == si
        &&& records[k].attributes@[j].offset == fname
    }
}

/// `ws` are the writes of a successful plan for `name` and `timestamp`.
pub open spec fn planned_writes(records: Seq<MftFileRecord>, name: Seq<char>, timestamp: u64, ws: Seq<(u64, u8)>) -> bool {
    exists|si: u64, fname: u64| {
        &&& #[trigger] is_target(records, name, si, fname)
        &&& timestamp <= MAX_OLE2_UNIX_SECONDS
        &&& si <= u64::MAX - 32 && fname <= u64::MAX - 40
        &&& ws == stomp_writes(si, fname, unix_to_ole2(timestamp as int) as u64)
    }
}

/// The error a plan for `name` and `timestamp` fails with, if it fails.
pub open spec fn plan_error(records: Seq<MftFileRecord>, name: Seq<char>, timestamp: u64, e: DecodeError) -> bool {
    ||| e == DecodeError::NotFound && target_missing(records, name)
    ||| e == DecodeError::Unsupported && !target_missing(records, name) && timestamp > MAX_OLE2_UNIX_SECONDS
    ||| e == DecodeError::Integrity && !target_missing(records, name) && timestamp <= MAX_OLE2_UNIX_SECONDS
        && exists|si: u64, fname: u64| #[trigger] is_target(records, name, si, fname) && (si > u64::MAX - 32 || fname > u64::MAX - 40)
}

/// Where to stomp for `file_name`: the body offsets of the first
/// $STANDARD_INFORMATION and the first $FILE_NAME of the first record with
/// a $FILE_NAME called `file_name`.
pub fn timestomp_target(records: &Vec<MftFileRecord>, file_name: &str) -> (r: Result<(u64, u64), DecodeError>)
    ensures
        match r {
            Ok((si, fname)) => is_target(records@, file_name@, si, fname) && !target_missing(records@, file_name@),
            Err(e) => e == DecodeError::NotFound && target_missing(records@, file_name@),
        },
{
    let mut k: usize = 0;
    while k < records.len()
        invariant
            k <= records@.len(),
            forall|j: int| 0 <= j < k ==> !record_has_name(#[trigger] records@[j], file_name@),
        decreases records@.len() - k,
    {
        let record = &records[k];
        if record.has_file_name_attribute(file_name) {
            assert(is_first_named(records@, k as int, file_name@));
            let si = match first_of_type(&record.attributes, 0x10) {
                Some(i) => i,
                None => return Err(DecodeError::NotFound),
            };
            let fname = match first_of_type(&record.attributes, 0x30) {
                Some(j) => j,
                None => return Err(DecodeError::NotFound),
            };
            proof {
                assert(is_first_of_type(records@[k as int].attributes@, si as int, 0x10));
                assert(is_first_of_type(records@[k as int].attributes@, fname as int, 0x30));
                if target_missing(records@, file_name@) {
                    assert(record_has_name(records@[k as int], file_name@));
                    let k2 = choose|k2: int| {
                        &&& #[trigger] is_first_named(records@, k2, file_name@)
                        &&& (forall|i: int| 0 <= i < records@[k2].attributes@.len()
                            ==> spec_common((#[trigger] records@[k2].attributes@[i]).header).attribute_type != 0x10)
                            || (forall|i: int| 0 <= i < records@[k2].attributes@.len()
                            ==> spec_common((#[trigger] records@[k2].attributes@[i]).header).attribute_type != 0x30)
                    };
                    if k2 < k {
                        assert(!record_has_name(records@[k2], file_name@));
                    } else if k2 > k {
                        assert(!record_has_name(records@[k as int], file_name@));
                    }
                    assert(records@[k2].attributes@[si as int] == records@[k as int].attributes@[si as int]);
                }
            }
            return Ok((record.attributes[si].offset, record.attributes[fname].offset));
        }
        k = k + 1;
    }
    Err(DecodeError::NotFound)
}

/// The byte writes of a timestomp request: every timestamp of the target
/// record (see `timestomp_target`) set to the OLE2 value of `timestamp`. A
/// timestamp past the OLE2 range is `Unsupported`; offsets too close to
/// 2^64 are `Integrity` errors.
pub fn timestomp_plan(records: &Vec<MftFileRecord>, timestomp: &Timestomp) -> (r: Result<Vec<(u64, u8)>, DecodeError>)
    ensures
        ({
            let Timestomp::Timestomp { file_name, timestamp } = *timestomp;
            match r {
                Ok(ws) => planned_writes(records@, file_name@, timestamp, ws@),
                Err(e) => plan_error(records@, file_name@, timestamp, e),
            }
        }),
{
    let Timestomp::Timestomp { file_name, timestamp } = timestomp;
    let (si, fname) = timestomp_target(records, file_name.as_str())?;
    let when = match NtfsDatetime::checked_from_unix(*timestamp) {
        Some(d) => d,
        None => return Err(DecodeError::Unsupported),
    };
    if si > u64::MAX - 32 || fname > u64::MAX - 40 {
        return Err(DecodeError::Integrity);
    }
    let ws = timestomp_writes(si, fname, when.ole2());
    assert(is_target(records@, file_name@, si, fname));
    Ok(ws)
}

/// Stomps an image held in memory: on success it equals the image after
/// the writes of `timestomp_plan`; on failure it is unchanged.
pub fn timestomp_mft(image: &mut Vec<u8>, records: &Vec<MftFileRecord>, timestomp: &Timestomp) -> (r: Result<Vec<(u64, u8)>, DecodeError>)
    ensures
        ({
            let Timestomp::Timestomp { file_name, timestamp } = *timestomp;
            stomp_outcome(old(image)@, records@, file_name@, timestamp, writes_view(r), final(image)@)
        }),
{
    let writes = timestomp_plan(records, timestomp)?;
    apply_image_writes(image, &writes);
    Ok(writes)
}

} // verus!
