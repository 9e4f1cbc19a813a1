//! The authorized-keys file: one `<algorithm> <base64 key> [comment...]`
//! record per non-blank line.
use vstd::prelude::*;
use vstd::slice::slice_subrange;
use vstd::slice::slice_to_vec;

use crate::AuthError;

verus! {

#[verifier::external_type_specification]
#[verifier::external_body]
pub struct ExDecodeError(data_encoding::DecodeError);

/// What `BASE64_MIME` decodes `s` to, or `None` where it refuses `s`.
pub uninterp spec fn mime_decoded(s: Seq<u8>) -> Option<Seq<u8>>;

/// Relies on `data_encoding::BASE64_MIME.decode`: a function of the input
/// alone, returning the decoded bytes or an error.
#[verifier::external_body]
fn decode_mime(s: &[u8]) -> (r: Result<Vec<u8>, data_encoding::DecodeError>)
    ensures
        match r {
            Ok(v) => mime_decoded(s@) == Some(v@),
            Err(_) => mime_decoded(s@) is None,
        },
{
    data_encoding::BASE64_MIME.decode(s)
}

/// ASCII whitespace, which separates the fields of a record.
pub open spec fn is_space(b: u8) -> bool {
    b == 32u8 || (9u8 <= b && b <= 13u8)
}

/// A line that holds whitespace only (or nothing).
pub open spec fn is_blank(line: Seq<u8>) -> bool {
    forall|i: int| 0 <= i < line.len() ==> is_space(#[trigger] line[i])
}

/// The first position at or after `i` that holds no whitespace, or the end.
pub open spec fn skip_space(line: Seq<u8>, i: nat) -> nat
    decreases line.len() - i,
{
    if i >= line.len() {
        line.len()
    } else if is_space(line[i as int]) {
        skip_space(line, i + 1)
    } else {
        i
    }
}

/// The first position at or after `i` that holds whitespace, or the end.
pub open spec fn field_end(line: Seq<u8>, i: nat) -> nat
    decreases line.len() - i,
{
    if i >= line.len() {
        line.len()
    } else if is_space(line[i as int]) {
        i
    } else {
        field_end(line, i + 1)
    }
}

/// The first two whitespace-separated fields of a line, where it has two.
pub open spec fn first_two_fields(line: Seq<u8>) -> Option<(Seq<u8>, Seq<u8>)> {
    let s0 = skip_space(line, 0);
    let e0 = field_end(line, s0);
    let s1 = skip_space(line, e0);
    let e1 = field_end(line, s1);
    if s1 < line.len() {
        Some((line.subrange(s0 as int, e0 as int), line.subrange(s1 as int, e1 as int)))
    } else {
        None
    }
}

/// The record of a non-blank line: its algorithm name and its decoded key,
/// or `None` where the line is malformed.
pub open spec fn line_record(line: Seq<u8>) -> Option<(Seq<u8>, Seq<u8>)> {
    match first_two_fields(line) {
        Some((algorithm, encoded)) => match mime_decoded(encoded) {
            Some(blob) => Some((algorithm, blob)),
            None => None,
        },
        None => None,
    }
}

/// A line that the file may hold: blank, or a well-formed record.
pub open spec fn line_ok(line: Seq<u8>) -> bool {
    is_blank(line) || line_record(line) is Some
}

/// A file all of whose lines are acceptable.
pub open spec fn file_ok(lines: Seq<Seq<u8>>) -> bool {
    forall|i: int| 0 <= i < lines.len() ==> line_ok(#[trigger] lines[i])
}

/// The records of a file, in file order, blank lines left out.
pub open spec fn file_records(lines: Seq<Seq<u8>>) -> Seq<(Seq<u8>, Seq<u8>)>
    decreases lines.len(),
{
    if lines.len() == 0 {
        Seq::empty()
    } else {
        let last = lines.last();
        let before = file_records(lines.drop_last());
        if is_blank(last) {
            before
        } else {
            before.push(line_record(last).unwrap())
        }
    }
}

/// How many lines of a file are not blank.
pub open spec fn count_non_blank(lines: Seq<Seq<u8>>) -> nat
    decreases lines.len(),
{
    if lines.len() == 0 {
        0
    } else {
        count_non_blank(lines.drop_last()) + if is_blank(lines.last()) {
            0nat
        } else {
            1nat
        }
    }
}

/// One record of the authorized-keys file: the algorithm name as written, and
/// the key in its SSH wire encoding (the decoded base64 field).
#[derive(Debug)]
pub struct KeyEntry {
    pub algorithm: Vec<u8>,
    pub blob: Vec<u8>,
}

impl View for KeyEntry {
    type V = (Seq<u8>, Seq<u8>);

    open spec fn view(&self) -> (Seq<u8>, Seq<u8>) {
        (self.algorithm@, self.blob@)
    }
}

proof fn lemma_skip_space_blank(line: Seq<u8>, i: nat)
    requires
        i <= line.len(),
    ensures
        skip_space(line, i) == line.len() <==> (forall|j: int|
            i <= j < line.len() ==> is_space(#[trigger] line[j])),
        i <= skip_space(line, i) <= line.len(),
    decreases line.len() - i,
{
    if i < line.len() && is_space(line[i as int]) {
        lemma_skip_space_blank(line, i + 1);
    }
}

proof fn lemma_field_end_bounds(line: Seq<u8>, i: nat)
    requires
        i <= line.len(),
    ensures
        i <= field_end(line, i) <= line.len(),
    decreases line.len() - i,
{
    if i < line.len() && !is_space(line[i as int]) {
        lemma_field_end_bounds(line, i + 1);
    }
}

fn skip_spaces(line: &Vec<u8>, start: usize) -> (r: usize)
    requires
        start <= line@.len(),
    ensures
        r == skip_space(line@, start as nat),
{
    let mut i: usize = start;
    while i < line.len() && (line[i] == 32u8 || (9u8 <= line[i] && line[i] <= 13u8))
        invariant
            start <= i <= line@.len(),
            skip_space(line@, i as nat) == skip_space(line@, start as nat),
        decreases line@.len() - i,
    {
        i = i + 1;
    }
    i
}

fn find_field_end(line: &Vec<u8>, start: usize) -> (r: usize)
    requires
        start <= line@.len(),
    ensures
        r == field_end(line@, start as nat),
{
    let mut i: usize = start;
    while i < line.len() && !(line[i] == 32u8 || (9u8 <= line[i] && line[i] <= 13u8))
        invariant
            start <= i <= line@.len(),
            field_end(line@, i as nat) == field_end(line@, start as nat),
        decreases line@.len() - i,
    {
        i = i + 1;
    }
    i
}

/// Reads one line of the authorized-keys file: `Ok(None)` for a blank line,
/// `Ok(Some(entry))` for a well-formed record, `Err(KeyFile)` otherwise.
pub fn parse_key_line(line: &Vec<u8>) -> (r: Result<Option<KeyEntry>, AuthError>)
    ensures
        is_blank(line@) ==> r == Ok::<Option<KeyEntry>, AuthError>(None),
        !is_blank(line@) ==> match r {
            Ok(Some(e)) => line_record(line@) == Some(e@),
            Ok(None) => false,
            Err(err) => line_record(line@) is None && err == AuthError::KeyFile,
        },
{
    let s0 = skip_spaces(line, 0);
    proof {
        lemma_skip_space_blank(line@, 0);
    }
    if s0 == line.len() {
        return Ok(None);
    }
    let e0 = find_field_end(line, s0);
    proof {
        lemma_field_end_bounds(line@, s0 as nat);
    }
    let s1 = skip_spaces(line, e0);
    proof {
        lemma_skip_space_blank(line@, e0 as nat);
    }
    if s1 == line.len() {
        return Err(AuthError::KeyFile);
    }
    let e1 = find_field_end(line, s1);
    proof {
        lemma_field_end_bounds(line@, s1 as nat);
    }
    let encoded = slice_subrange(line.as_slice(), s1, e1);
    match decode_mime(encoded) {
        Ok(blob) => {
            let algorithm = slice_to_vec(slice_subrange(line.as_slice(), s0, e0));
            Ok(Some(KeyEntry { algorithm, blob }))
        },
        Err(_) => Err(AuthError::KeyFile),
    }
}

/// Reads the whole authorized-keys file, given as its lines: the records in
/// file order, or `Err(KeyFile)` when any non-blank line is malformed. An
/// empty or all-blank file gives no records.
pub fn parse_key_file(lines: &Vec<Vec<u8>>) -> (r: Result<Vec<KeyEntry>, AuthError>)
    ensures
        r is Ok <==> file_ok(lines@.map_values(|l: Vec<u8>| l@)),
        match r {
            Ok(entries) => entries@.map_values(|e: KeyEntry| e@) == file_records(
                lines@.map_values(|l: Vec<u8>| l@),
            ),
            Err(err) => err == AuthError::KeyFile,
        },
{
    let ghost all = lines@.map_values(|l: Vec<u8>| l@);
    let mut entries: Vec<KeyEntry> = Vec::new();
    let mut i: usize = 0;
    while i < lines.len()
        invariant
            i <= lines@.len(),
            all == lines@.map_values(|l: Vec<u8>| l@),
            forall|k: int| 0 <= k < i ==> line_ok(#[trigger] all[k]),
            entries@.map_values(|e: KeyEntry| e@) == file_records(all.take(i as int)),
        decreases lines@.len() - i,
    {
        let parsed = parse_key_line(&lines[i]);
        proof {
            assert(all.take(i + 1).drop_last() == all.take(i as int));
            assert(all.take(i + 1).last() == lines@[i as int]@);
        }
        match parsed {
            Ok(Some(e)) => {
                entries.push(e);
                proof {
                    assert(entries@.map_values(|e: KeyEntry| e@) =~= file_records(
                        all.take(i + 1),
                    ));
                }
            },
            Ok(None) => {},
            Err(err) => {
                assert(!line_ok(all[i as int]));
                return Err(err);
            },
        }
        i = i + 1;
    }
    assert(all.take(lines@.len() as int) == all);
    Ok(entries)
}

/// In a file whose lines are all acceptable there is one record for each
/// non-blank line.
pub proof fn lemma_one_record_per_line(lines: Seq<Seq<u8>>)
    ensures
        file_records(lines).len() == count_non_blank(lines),
    decreases lines.len(),
{
    if lines.len() > 0 {
        lemma_one_record_per_line(lines.drop_last());
    }
}

} // verus!
