//! Forward-only store schema migrations, on the bytes of a store image.
//!
//! Schema 1 records hold tenant, kind, object identifier and value. Schema 2 inserts the
//! explicit storage class after the kind: existing data is local-only unless it is a
//! core-produced identity, budget mirror or receipt. Schema 3 has the schema 2 layout.
use vstd::prelude::*;

use crate::bytes::{
    copy_range, lemma_u32_at_be, parse_sized, push_all, push_u32, read_sized, read_u32, sized,
    u32_at, u32_be,
};

verus! {

/// Current durable store schema.
pub const CURRENT_SCHEMA_VERSION: u32 = 3;

/// The oldest schema that can still be migrated.
pub const OLDEST_SUPPORTED_SCHEMA_VERSION: u32 = 1;

/// One forward step between adjacent schemas.
#[derive(Clone, Copy, Debug, PartialEq, Eq, Structural)]
pub struct MigrationStep {
    pub from: u32,
    pub to: u32,
}

/// What a migration did.
#[derive(Clone, Debug, PartialEq, Eq)]
pub struct MigrationReport {
    pub original_version: u32,
    pub final_version: u32,
    pub steps: Vec<MigrationStep>,
    pub core_produced_records_preserved: u32,
}

/// Migration refusal and I/O failures.
#[derive(Debug)]
pub enum MigrationError {
    Io(std::io::Error),
    InvalidHeader,
    NewerSchema { found: u32, supported: u32 },
    UnsupportedOldSchema(u32),
    CorruptV1,
    SizeOverflow,
}

/// The four magic bytes `LXAS`.
pub open spec fn magic() -> Seq<u8> {
    seq![76u8, 88u8, 65u8, 83u8]
}

/// The image starts with the magic and a schema version.
pub open spec fn has_header(b: Seq<u8>) -> bool {
    b.len() >= 8 && b.subrange(0, 4) == magic()
}

/// The storage class a schema 1 record receives: core-produced for identities, budget
/// mirrors and receipts, local-only otherwise.
pub open spec fn v1_class(kind: u8) -> u8 {
    if kind == 1 || kind == 4 || kind == 8 {
        2
    } else {
        1
    }
}

/// Reads one schema 1 record at `at`: its schema 2 encoding and the offset past it.
pub open spec fn v1_record(b: Seq<u8>, at: int) -> Option<(Seq<u8>, int)> {
    match parse_sized(b, at) {
        None => None,
        Some((t, a1)) => {
            if a1 + 1 > b.len() {
                None
            } else {
                match parse_sized(b, a1 + 1) {
                    None => None,
                    Some((id, a2)) => match parse_sized(b, a2) {
                        None => None,
                        Some((v, a3)) => Some(
                            (sized(t) + seq![b[a1], v1_class(b[a1])] + sized(id) + sized(v), a3),
                        ),
                    },
                }
            }
        },
    }
}

/// Reads `n` schema 1 records from `at`: their schema 2 encodings and the offset past them.
pub open spec fn v1_records(b: Seq<u8>, at: int, n: nat) -> Option<(Seq<u8>, int)>
    decreases n,
{
    if n == 0 {
        Some((Seq::empty(), at))
    } else {
        match v1_records(b, at, (n - 1) as nat) {
            None => None,
            Some((out, off)) => match v1_record(b, off) {
                None => None,
                Some((piece, next)) => Some((out + piece, next)),
            },
        }
    }
}

/// The schema 2 image of a schema 1 image, when every record is whole and nothing follows.
pub open spec fn step_v1_v2(b: Seq<u8>) -> Option<Seq<u8>> {
    if b.len() < 12 {
        None
    } else {
        match v1_records(b, 12, u32_at(b, 8) as nat) {
            None => None,
            Some((out, end)) => {
                if end == b.len() {
                    Some(magic() + u32_be(2) + u32_be(u32_at(b, 8)) + out)
                } else {
                    None
                }
            },
        }
    }
}

/// Reads one schema 2 record at `at`: whether it is core-produced, and the offset past it.
pub open spec fn v2_record(b: Seq<u8>, at: int) -> Option<(bool, int)> {
    match parse_sized(b, at) {
        None => None,
        Some((t, a1)) => {
            if a1 + 2 > b.len() || !(1 <= b[a1] <= 13) || !(1 <= b[a1 + 1] <= 2) {
                None
            } else {
                match parse_sized(b, a1 + 2) {
                    None => None,
                    Some((id, a2)) => match parse_sized(b, a2) {
                        None => None,
                        Some((v, a3)) => Some((b[a1 + 1] == 2, a3)),
                    },
                }
            }
        },
    }
}

/// Reads `n` schema 2 records from `at`: how many are core-produced, and the offset past them.
pub open spec fn v2_records(b: Seq<u8>, at: int, n: nat) -> Option<(nat, int)>
    decreases n,
{
    if n == 0 {
        Some((0, at))
    } else {
        match v2_records(b, at, (n - 1) as nat) {
            None => None,
            Some((core, off)) => match v2_record(b, off) {
                None => None,
                Some((is_core, next)) => Some((if is_core { core + 1 } else { core }, next)),
            },
        }
    }
}

/// The number of core-produced records of a well-formed schema 2 or 3 body.
pub open spec fn v2_body_core(b: Seq<u8>) -> Option<nat> {
    if b.len() < 12 {
        None
    } else {
        match v2_records(b, 12, u32_at(b, 8) as nat) {
            None => None,
            Some((core, end)) => {
                if end == b.len() {
                    Some(core)
                } else {
                    None
                }
            },
        }
    }
}

/// The schema 3 image of a well-formed schema 2 image: the same bytes, version 3.
pub open spec fn step_v2_v3(b: Seq<u8>) -> Option<Seq<u8>> {
    if has_header(b) && u32_at(b, 4) == 2 && v2_body_core(b) is Some {
        Some(b.subrange(0, 4) + u32_be(3) + b.subrange(8, b.len() as int))
    } else {
        None
    }
}

/// The current-schema image a migration produces, when it succeeds.
pub open spec fn migrated(b: Seq<u8>) -> Option<Seq<u8>> {
    if !has_header(b) {
        None
    } else if u32_at(b, 4) == 3 {
        if v2_body_core(b) is Some {
            Some(b)
        } else {
            None
        }
    } else if u32_at(b, 4) == 2 {
        step_v2_v3(b)
    } else if u32_at(b, 4) == 1 {
        match step_v1_v2(b) {
            None => None,
            Some(b2) => step_v2_v3(b2),
        }
    } else {
        None
    }
}

/// The steps a migration from `version` takes.
pub open spec fn steps_from(version: u32) -> Seq<MigrationStep> {
    if version == 1 {
        seq![MigrationStep { from: 1, to: 2 }, MigrationStep { from: 2, to: 3 }]
    } else if version == 2 {
        seq![MigrationStep { from: 2, to: 3 }]
    } else {
        Seq::empty()
    }
}

/// Reads the schema version from the header.
fn schema_version(bytes: &[u8]) -> (r: Result<u32, MigrationError>)
    ensures
        r is Ok <==> has_header(bytes@),
        r matches Ok(v) ==> v == u32_at(bytes@, 4),
        r matches Err(e) ==> e is InvalidHeader,
{
    if bytes.len() < 8 {
        return Err(MigrationError::InvalidHeader);
    }
    if bytes[0] != 76u8 || bytes[1] != 88u8 || bytes[2] != 65u8 || bytes[3] != 83u8 {
        assert(bytes@.subrange(0, 4) != magic()) by {
            assert(bytes@.subrange(0, 4)[0] == bytes@[0]);
            assert(bytes@.subrange(0, 4)[1] == bytes@[1]);
            assert(bytes@.subrange(0, 4)[2] == bytes@[2]);
            assert(bytes@.subrange(0, 4)[3] == bytes@[3]);
        }
        return Err(MigrationError::InvalidHeader);
    }
    assert(bytes@.subrange(0, 4) =~= magic());
    Ok(read_u32(bytes, 4))
}

/// Appends the length-prefixed field at `start..end` of `input`, prefix included.
fn copy_field(input: &[u8], start: usize, end: usize, output: &mut Vec<u8>)
    requires
        4 <= start <= end <= input.len(),
        end - start <= u32::MAX,
        u32_at(input@, start - 4) == end - start,
    ensures
        final(output)@ == old(output)@ + sized(input@.subrange(start as int, end as int)),
{
    push_u32(output, (end - start) as u32);
    let body = copy_range(input, start, end - start);
    push_all(output, body.as_slice());
}

/// Reads one schema 1 record at `at`, appending its schema 2 encoding.
fn migrate_v1_record(bytes: &[u8], at: usize, output: &mut Vec<u8>) -> (r: Option<usize>)
    ensures
        r is Some <==> v1_record(bytes@, at as int) is Some,
        r is Some ==> final(output)@.len() >= old(output)@.len(),
        r matches Some(end) ==> v1_record(bytes@, at as int) == Some(
            (final(output)@.subrange(old(output)@.len() as int, final(output)@.len() as int), end as int),
        ) && final(output)@.subrange(0, old(output)@.len() as int) == old(output)@,
{
    let ghost start_len = output@.len();
    let (ts, te) = match read_sized(bytes, at) {
        Some(span) => span,
        None => {
            return None;
        },
    };
    if bytes.len() - te < 1 {
        return None;
    }
    let kind = bytes[te];
    let (is, ie) = match read_sized(bytes, te + 1) {
        Some(span) => span,
        None => {
            return None;
        },
    };
    let (vs, ve) = match read_sized(bytes, ie) {
        Some(span) => span,
        None => {
            return None;
        },
    };
    let ghost before = output@;
    copy_field(bytes, ts, te, output);
    output.push(kind);
    output.push(if kind == 1 || kind == 4 || kind == 8 { 2u8 } else { 1u8 });
    copy_field(bytes, is, ie, output);
    copy_field(bytes, vs, ve, output);
    proof {
        let piece = output@.subrange(before.len() as int, output@.len() as int);
        assert(piece =~= sized(bytes@.subrange(ts as int, te as int)) + seq![
            kind,
            v1_class(kind),
        ] + sized(bytes@.subrange(is as int, ie as int)) + sized(
            bytes@.subrange(vs as int, ve as int),
        ));
        assert(output@.subrange(0, before.len() as int) =~= before);
    }
    Some(ve)
}

/// Rewrites a schema 1 image as schema 2.
fn migrate_v1_to_v2(bytes: &[u8]) -> (r: Result<Vec<u8>, MigrationError>)
    ensures
        r is Ok <==> step_v1_v2(bytes@) is Some,
        r matches Ok(out) ==> out@ == step_v1_v2(bytes@).unwrap(),
        r matches Err(e) ==> e is CorruptV1,
{
    if bytes.len() < 12 {
        return Err(MigrationError::CorruptV1);
    }
    let count = read_u32(bytes, 8);
    let mut output: Vec<u8> = Vec::new();
    output.push(76u8);
    output.push(88u8);
    output.push(65u8);
    output.push(83u8);
    push_u32(&mut output, 2u32);
    push_u32(&mut output, count);
    let ghost head = output@;
    assert(head =~= magic() + u32_be(2) + u32_be(count));
    let mut offset: usize = 12;
    let mut i: u32 = 0;
    while i < count
        invariant
            i <= count,
            count == u32_at(bytes@, 8),
            head.len() == 12,
            v1_records(bytes@, 12, i as nat) == Some(
                (output@.subrange(12, output@.len() as int), offset as int),
            ),
            output@.subrange(0, 12) == head,
            output@.len() >= 12,
        decreases count - i,
    {
        let ghost before = output@;
        match migrate_v1_record(bytes, offset, &mut output) {
            None => {
                proof {
                    lemma_v1_records_stuck(bytes@, 12, (i + 1) as nat, count as nat);
                }
                return Err(MigrationError::CorruptV1);
            },
            Some(end) => {
                proof {
                    let piece = output@.subrange(before.len() as int, output@.len() as int);
                    assert(output@.subrange(0, before.len() as int) == before);
                    assert(output@ =~= output@.subrange(0, before.len() as int) + piece);
                    assert(output@ =~= before + piece);
                    assert(output@.subrange(12, output@.len() as int) =~= before.subrange(
                        12,
                        before.len() as int,
                    ) + piece);
                    assert(output@.subrange(0, 12) =~= before.subrange(0, 12));
                }
                offset = end;
                i = i + 1;
            },
        }
    }
    if offset != bytes.len() {
        return Err(MigrationError::CorruptV1);
    }
    assert(output@ =~= head + output@.subrange(12, output@.len() as int));
    Ok(output)
}

/// Once `m` schema 1 records cannot be read, no longer run of them can.
proof fn lemma_v1_records_stuck(b: Seq<u8>, at: int, m: nat, n: nat)
    requires
        m <= n,
        v1_records(b, at, m) is None,
    ensures
        v1_records(b, at, n) is None,
    decreases n,
{
    if m < n {
        lemma_v1_records_stuck(b, at, m, (n - 1) as nat);
    }
}

/// Once `m` schema 2 records cannot be read, no longer run of them can.
proof fn lemma_v2_records_stuck(b: Seq<u8>, at: int, m: nat, n: nat)
    requires
        m <= n,
        v2_records(b, at, m) is None,
    ensures
        v2_records(b, at, n) is None,
    decreases n,
{
    if m < n {
        lemma_v2_records_stuck(b, at, m, (n - 1) as nat);
    }
}

/// Checks a schema 2 or 3 image and counts its core-produced records.
fn validate_v2_or_v3(bytes: &[u8], expected_version: u32) -> (r: Result<u32, MigrationError>)
    ensures
        !has_header(bytes@) || u32_at(bytes@, 4) != expected_version ==> (r matches Err(e)
            && e is InvalidHeader),
        has_header(bytes@) && u32_at(bytes@, 4) == expected_version ==> {
            &&& r is Ok <==> v2_body_core(bytes@) is Some
            &&& r matches Ok(core) ==> core == v2_body_core(bytes@).unwrap()
            &&& r matches Err(e) ==> e is CorruptV1
        },
{
    let version = schema_version(bytes)?;
    if version != expected_version {
        return Err(MigrationError::InvalidHeader);
    }
    if bytes.len() < 12 {
        return Err(MigrationError::CorruptV1);
    }
    let count = read_u32(bytes, 8);
    let mut offset: usize = 12;
    let mut core: u32 = 0;
    let mut i: u32 = 0;
    while i < count
        invariant
            i <= count,
            count == u32_at(bytes@, 8),
            core <= i,
            has_header(bytes@),
            u32_at(bytes@, 4) == expected_version,
            v2_records(bytes@, 12, i as nat) == Some((core as nat, offset as int)),
        decreases count - i,
    {
        let (ts, te) = match read_sized(bytes, offset) {
            Some(span) => span,
            None => {
                proof {
                    lemma_v2_records_stuck(bytes@, 12, (i + 1) as nat, count as nat);
                }
                return Err(MigrationError::CorruptV1);
            },
        };
        if bytes.len() - te < 2 || bytes[te] < 1 || bytes[te] > 13 || bytes[te + 1] < 1
            || bytes[te + 1] > 2 {
            proof {
                lemma_v2_records_stuck(bytes@, 12, (i + 1) as nat, count as nat);
            }
            return Err(MigrationError::CorruptV1);
        }
        let class = bytes[te + 1];
        let (is, ie) = match read_sized(bytes, te + 2) {
            Some(span) => span,
            None => {
                proof {
                    lemma_v2_records_stuck(bytes@, 12, (i + 1) as nat, count as nat);
                }
                return Err(MigrationError::CorruptV1);
            },
        };
        let (vs, ve) = match read_sized(bytes, ie) {
            Some(span) => span,
            None => {
                proof {
                    lemma_v2_records_stuck(bytes@, 12, (i + 1) as nat, count as nat);
                }
                return Err(MigrationError::CorruptV1);
            },
        };
        if class == 2 {
            core = core + 1;
        }
        offset = ve;
        i = i + 1;
    }
    if offset != bytes.len() {
        return Err(MigrationError::CorruptV1);
    }
    Ok(core)
}

/// Rewrites a schema 2 image as schema 3.
fn migrate_v2_to_v3(bytes: &[u8]) -> (r: Result<Vec<u8>, MigrationError>)
    requires
        has_header(bytes@),
        u32_at(bytes@, 4) == 2,
    ensures
        r is Ok <==> step_v2_v3(bytes@) is Some,
        r matches Ok(out) ==> out@ == step_v2_v3(bytes@).unwrap(),
        r matches Err(e) ==> e is CorruptV1,
{
    let _core_records = validate_v2_or_v3(bytes, 2)?;
    let mut output: Vec<u8> = copy_range(bytes, 0, 4);
    push_u32(&mut output, 3u32);
    let rest = copy_range(bytes, 8, bytes.len() - 8);
    push_all(&mut output, rest.as_slice());
    Ok(output)
}

/// Migrates a store image forward to the current schema. Nothing is derived locally: each
/// step only rewrites the layout. On success returns the current-schema image (the input
/// itself when it was already current) and a report; writing it is the caller's concern.
///
/// # Errors
///
/// Returns `InvalidHeader` without the magic and version, `NewerSchema` for a schema
/// above the current one, `UnsupportedOldSchema` below the oldest supported one, and
/// `CorruptV1` for malformed records.
#[verifier::rlimit(40)]
pub fn migrate_image(bytes: Vec<u8>) -> (r: Result<(Vec<u8>, MigrationReport), MigrationError>)
    ensures
        r is Ok <==> migrated(bytes@) is Some,
        r matches Ok((out, report)) ==> {
            &&& out@ == migrated(bytes@).unwrap()
            &&& report.original_version == u32_at(bytes@, 4)
            &&& report.final_version == CURRENT_SCHEMA_VERSION
            &&& report.steps@ == steps_from(u32_at(bytes@, 4))
            &&& report.core_produced_records_preserved == v2_body_core(out@).unwrap()
        },
        !has_header(bytes@) ==> (r matches Err(e) && e is InvalidHeader),
        has_header(bytes@) && u32_at(bytes@, 4) > CURRENT_SCHEMA_VERSION ==> r == Err::<
            (Vec<u8>, MigrationReport),
            MigrationError,
        >(MigrationError::NewerSchema { found: u32_at(bytes@, 4), supported: 3 }),
        has_header(bytes@) && u32_at(bytes@, 4) < OLDEST_SUPPORTED_SCHEMA_VERSION ==> r == Err::<
            (Vec<u8>, MigrationReport),
            MigrationError,
        >(MigrationError::UnsupportedOldSchema(u32_at(bytes@, 4))),
        has_header(bytes@) && OLDEST_SUPPORTED_SCHEMA_VERSION <= u32_at(bytes@, 4)
            <= CURRENT_SCHEMA_VERSION ==> (r matches Err(e) ==> e is CorruptV1),
{
    let original_version = schema_version(bytes.as_slice())?;
    if original_version > CURRENT_SCHEMA_VERSION {
        return Err(
            MigrationError::NewerSchema {
                found: original_version,
                supported: CURRENT_SCHEMA_VERSION,
            },
        );
    }
    if original_version < OLDEST_SUPPORTED_SCHEMA_VERSION {
        return Err(MigrationError::UnsupportedOldSchema(original_version));
    }
    if original_version == CURRENT_SCHEMA_VERSION {
        let core = validate_v2_or_v3(bytes.as_slice(), CURRENT_SCHEMA_VERSION)?;
        let report = MigrationReport {
            original_version,
            final_version: original_version,
            steps: Vec::new(),
            core_produced_records_preserved: core,
        };
        assert(report.steps@ =~= steps_from(original_version));
        return Ok((bytes, report));
    }
    let mut steps: Vec<MigrationStep> = Vec::new();
    let mut current = bytes;
    if original_version == 1 {
        current = migrate_v1_to_v2(current.as_slice())?;
        steps.push(MigrationStep { from: 1, to: 2 });
        proof {
            lemma_step_v1_v2_header(bytes@);
        }
    }
    current = migrate_v2_to_v3(current.as_slice())?;
    steps.push(MigrationStep { from: 2, to: 3 });
    proof {
        lemma_step_v2_v3_current(if original_version == 1 {
            step_v1_v2(bytes@).unwrap()
        } else {
            bytes@
        });
    }
    let core = validate_v2_or_v3(current.as_slice(), CURRENT_SCHEMA_VERSION)?;
    let report = MigrationReport {
        original_version,
        final_version: CURRENT_SCHEMA_VERSION,
        steps,
        core_produced_records_preserved: core,
    };
    assert(report.steps@ =~= steps_from(original_version));
    Ok((current, report))
}

/// A schema 1 image migrates to an image with a schema 2 header.
proof fn lemma_step_v1_v2_header(b: Seq<u8>)
    requires
        step_v1_v2(b) is Some,
    ensures
        has_header(step_v1_v2(b).unwrap()),
        u32_at(step_v1_v2(b).unwrap(), 4) == 2,
{
    let out = step_v1_v2(b).unwrap();
    let rest = u32_be(u32_at(b, 8)) + v1_records(b, 12, u32_at(b, 8) as nat).unwrap().0;
    assert(out =~= magic() + u32_be(2) + rest);
    lemma_u32_at_be(magic(), 2, rest);
    assert(out.subrange(0, 4) =~= magic());
}

/// Reading schema 2 records only looks at bytes from the ninth on.
proof fn lemma_v2_records_frame(b: Seq<u8>, c: Seq<u8>, at: int, n: nat)
    requires
        b.len() == c.len(),
        at >= 8,
        forall|i: int| 8 <= i < b.len() ==> b[i] == c[i],
    ensures
        v2_records(b, at, n) == v2_records(c, at, n),
    decreases n,
{
    if n > 0 {
        lemma_v2_records_frame(b, c, at, (n - 1) as nat);
        match v2_records(b, at, (n - 1) as nat) {
            None => {},
            Some((core, off)) => {
                lemma_v2_record_frame(b, c, off);
            },
        }
    }
}

/// Reading a length-prefixed field only looks at the bytes it covers.
proof fn lemma_parse_sized_frame(b: Seq<u8>, c: Seq<u8>, at: int)
    requires
        b.len() == c.len(),
        at >= 8,
        forall|i: int| 8 <= i < b.len() ==> b[i] == c[i],
    ensures
        parse_sized(b, at) == parse_sized(c, at),
{
    if 0 <= at && at + 4 <= b.len() {
        assert(u32_at(b, at) == u32_at(c, at));
        let n = u32_at(b, at) as int;
        if at + 4 + n <= b.len() {
            assert(b.subrange(at + 4, at + 4 + n) =~= c.subrange(at + 4, at + 4 + n));
        }
    }
}

/// Reading one schema 2 record only looks at bytes from the ninth on.
proof fn lemma_v2_record_frame(b: Seq<u8>, c: Seq<u8>, at: int)
    requires
        b.len() == c.len(),
        forall|i: int| 8 <= i < b.len() ==> b[i] == c[i],
    ensures
        at >= 8 ==> v2_record(b, at) == v2_record(c, at),
{
    if at >= 8 {
        lemma_parse_sized_frame(b, c, at);
        match parse_sized(b, at) {
            None => {},
            Some((t, a1)) => {
                if a1 + 2 <= b.len() {
                    assert(b[a1] == c[a1]);
                    assert(b[a1 + 1] == c[a1 + 1]);
                    lemma_parse_sized_frame(b, c, a1 + 2);
                    match parse_sized(b, a1 + 2) {
                        None => {},
                        Some((id, a2)) => {
                            lemma_parse_sized_frame(b, c, a2);
                        },
                    }
                }
            },
        }
    }
}

/// A schema 2 image that steps to schema 3 is a well-formed current image with the same
/// core-produced records.
proof fn lemma_step_v2_v3_current(b: Seq<u8>)
    requires
        step_v2_v3(b) is Some,
    ensures
        has_header(step_v2_v3(b).unwrap()),
        u32_at(step_v2_v3(b).unwrap(), 4) == 3,
        v2_body_core(step_v2_v3(b).unwrap()) == v2_body_core(b),
{
    let out = step_v2_v3(b).unwrap();
    let tail = b.subrange(8, b.len() as int);
    assert(out =~= b.subrange(0, 4) + u32_be(3) + tail);
    lemma_u32_at_be(b.subrange(0, 4), 3, tail);
    assert(out.subrange(0, 4) =~= b.subrange(0, 4));
    assert forall|i: int| 8 <= i < b.len() implies out[i] == b[i] by {
        assert(out[i] == tail[i - 8]);
    }
    assert(u32_at(out, 8) == u32_at(b, 8));
    lemma_v2_records_frame(out, b, 12, u32_at(b, 8) as nat);
}

/// Law: migration is idempotent. A migrated image is current and well-formed, so migrating
/// it again changes nothing and takes no step.
pub proof fn lemma_migration_idempotent(b: Seq<u8>)
    requires
        migrated(b) is Some,
    ensures
        has_header(migrated(b).unwrap()),
        u32_at(migrated(b).unwrap(), 4) == CURRENT_SCHEMA_VERSION,
        migrated(migrated(b).unwrap()) == migrated(b),
        steps_from(u32_at(migrated(b).unwrap(), 4)).len() == 0,
{
    if u32_at(b, 4) == 2 {
        lemma_step_v2_v3_current(b);
    } else if u32_at(b, 4) == 1 {
        lemma_step_v1_v2_header(b);
        lemma_step_v2_v3_current(step_v1_v2(b).unwrap());
    }
}

} // verus!
