//! The log file as bytes: one record per line, appended and never
//! rewritten. The library frames the records; what a record says is the
//! caller's to write and to read.

use vstd::prelude::*;

verus! {

/// The byte that ends a line.
pub const NEWLINE: u8 = 10;

/// A text read up to some point: the lines that have ended, empty ones
/// left out, and the line that is open.
pub struct Scan<T> {
    pub done: Seq<Seq<T>>,
    pub open: Seq<T>,
}

/// The reading after one more item, where `end` ends a line.
pub open spec fn scan_item<T>(scan: Scan<T>, item: T, end: T) -> Scan<T> {
    if item == end {
        Scan {
            done: if scan.open.len() > 0 {
                scan.done.push(scan.open)
            } else {
                scan.done
            },
            open: Seq::empty(),
        }
    } else {
        Scan { done: scan.done, open: scan.open.push(item) }
    }
}

/// The reading of the first `upto` items of a text.
pub open spec fn scan<T>(file: Seq<T>, end: T, upto: int) -> Scan<T>
    decreases upto,
{
    if upto <= 0 {
        Scan { done: Seq::empty(), open: Seq::empty() }
    } else {
        scan_item(scan(file, end, upto - 1), file[upto - 1], end)
    }
}

/// The lines of a reading: those that have ended and, where it is not
/// empty, the open one.
pub open spec fn lines_of<T>(scan: Scan<T>) -> Seq<Seq<T>> {
    if scan.open.len() > 0 {
        scan.done.push(scan.open)
    } else {
        scan.done
    }
}

/// The lines of a text that are not empty, in order.
pub open spec fn lines<T>(file: Seq<T>, end: T) -> Seq<Seq<T>> {
    lines_of(scan(file, end, file.len() as int))
}

/// The records of a file: its lines that are not empty, in order.
pub open spec fn records(file: Seq<u8>) -> Seq<Seq<u8>> {
    lines(file, NEWLINE)
}

/// Bytes that can stand as one record: at least one, none of them the
/// end of a line.
pub open spec fn is_record(record: Seq<u8>) -> bool {
    record.len() > 0 && forall|i: int| 0 <= i < record.len() ==> record[i] != NEWLINE
}

/// The bytes that come before a new record: the end of the line where
/// the file stops in the middle of one, else nothing.
pub open spec fn mend(file: Seq<u8>) -> Seq<u8> {
    if file.len() > 0 && file[file.len() - 1] != NEWLINE {
        seq![NEWLINE]
    } else {
        Seq::empty()
    }
}

/// The file with one more record.
pub open spec fn appended(file: Seq<u8>, record: Seq<u8>) -> Seq<u8> {
    file + mend(file) + record + seq![NEWLINE]
}

/// The records of a file, each as its bytes.
pub fn split_records(file: &Vec<u8>) -> (res: Vec<Vec<u8>>)
    ensures
        res@.len() == records(file@).len(),
        forall|i: int| 0 <= i < res@.len() ==> (#[trigger] res@[i])@ == records(file@)[i],
{
    let mut done: Vec<Vec<u8>> = Vec::new();
    let mut open: Vec<u8> = Vec::new();
    let mut i: usize = 0;
    while i < file.len()
        invariant
            i <= file@.len(),
            open@ == scan(file@, NEWLINE, i as int).open,
            done@.len() == scan(file@, NEWLINE, i as int).done.len(),
            forall|k: int|
                0 <= k < done@.len() ==> (#[trigger] done@[k])@ == scan(
                    file@,
                    NEWLINE,
                    i as int,
                ).done[k],
        decreases file@.len() - i,
    {
        let byte = file[i];
        if byte == NEWLINE {
            if open.len() > 0 {
                done.push(open);
                open = Vec::new();
            }
        } else {
            open.push(byte);
        }
        i += 1;
    }
    if open.len() > 0 {
        done.push(open);
    }
    done
}

/// Whether the bytes can stand as one record.
pub fn check_record(record: &Vec<u8>) -> (res: bool)
    ensures
        res == is_record(record@),
{
    if record.len() == 0 {
        return false;
    }
    let mut i: usize = 0;
    while i < record.len()
        invariant
            i <= record@.len(),
            forall|j: int| 0 <= j < i ==> record@[j] != NEWLINE,
        decreases record@.len() - i,
    {
        if record[i] == NEWLINE {
            return false;
        }
        i += 1;
    }
    true
}

/// Appends a record to the file as a line of its own. Bytes that cannot
/// stand as one record are refused and the file is left as it is. What
/// the file held stays as it was, byte for byte.
pub fn append_record(file: &mut Vec<u8>, record: &Vec<u8>) -> (written: bool)
    ensures
        written == is_record(record@),
        written ==> final(file)@ == appended(old(file)@, record@),
        !written ==> final(file)@ == old(file)@,
{
    if !check_record(record) {
        return false;
    }
    let n = file.len();
    if n > 0 && file[n - 1] != NEWLINE {
        file.push(NEWLINE);
    }
    let ghost mended = file@;
    let mut i: usize = 0;
    while i < record.len()
        invariant
            i <= record@.len(),
            file@ == mended + record@.subrange(0, i as int),
        decreases record@.len() - i,
    {
        file.push(record[i]);
        assert(record@.subrange(0, i + 1) =~= record@.subrange(0, i as int).push(record@[i as int]));
        i += 1;
    }
    file.push(NEWLINE);
    assert(record@.subrange(0, record@.len() as int) =~= record@);
    assert(file@ =~= appended(old(file)@, record@));
    true
}

/// The reading of a text does not depend on what follows the part read.
pub proof fn lemma_scan_prefix<T>(file: Seq<T>, more: Seq<T>, end: T, upto: int)
    requires
        0 <= upto <= file.len(),
    ensures
        scan(file + more, end, upto) == scan(file, end, upto),
    decreases upto,
{
    if upto > 0 {
        lemma_scan_prefix(file, more, end, upto - 1);
    }
}

/// Reading on through items without a line end only lengthens the open
/// line.
pub proof fn lemma_scan_within_line<T>(file: Seq<T>, more: Seq<T>, end: T, upto: int)
    requires
        0 <= upto <= more.len(),
        forall|i: int| 0 <= i < more.len() ==> more[i] != end,
    ensures
        scan(file + more, end, file.len() + upto) == (Scan {
            done: scan(file, end, file.len() as int).done,
            open: scan(file, end, file.len() as int).open + more.subrange(0, upto),
        }),
    decreases upto,
{
    let whole = file + more;
    let read = scan(file, end, file.len() as int);
    if upto == 0 {
        lemma_scan_prefix(file, more, end, file.len() as int);
        assert(read.open + more.subrange(0, 0) =~= read.open);
    } else {
        lemma_scan_within_line(file, more, end, upto - 1);
        assert(whole[file.len() + upto - 1] == more[upto - 1]);
        assert(more.subrange(0, upto) =~= more.subrange(0, upto - 1).push(more[upto - 1]));
        assert(read.open + more.subrange(0, upto) =~= (read.open + more.subrange(
            0,
            upto - 1,
        )).push(more[upto - 1]));
    }
}

/// Ending the line where the file stops in the middle of one makes the
/// file's lines its ended lines, and leaves none open.
pub proof fn lemma_mended(file: Seq<u8>)
    ensures
        scan(file + mend(file), NEWLINE, (file + mend(file)).len() as int) == (Scan {
            done: records(file),
            open: Seq::empty(),
        }),
{
    let n = file.len() as int;
    if n == 0 {
        assert(file + mend(file) =~= file);
    } else if file[n - 1] == NEWLINE {
        assert(file + mend(file) =~= file);
    } else {
        let whole = file + mend(file);
        lemma_scan_prefix(file, mend(file), NEWLINE, n);
        assert(whole[n] == NEWLINE);
        assert(scan(file, NEWLINE, n).open.len() > 0);
    }
}

/// The log only grows by whole records: after a record is appended, the
/// file's records are those it had, unchanged and in order, and then the
/// new one.
pub proof fn lemma_append_only(file: Seq<u8>, record: Seq<u8>)
    requires
        is_record(record),
    ensures
        records(appended(file, record)) == records(file).push(record),
{
    let base = file + mend(file);
    lemma_mended(file);
    lemma_scan_within_line(base, record, NEWLINE, record.len() as int);
    assert(record.subrange(0, record.len() as int) =~= record);
    let body = base + record;
    let whole = body + seq![NEWLINE];
    assert(whole =~= appended(file, record));
    lemma_scan_prefix(body, seq![NEWLINE], NEWLINE, body.len() as int);
    assert(whole[body.len() as int] == NEWLINE);
    assert(Seq::<u8>::empty() + record =~= record);
}

/// The file that holds the given records and nothing else.
pub open spec fn written(list: Seq<Seq<u8>>, upto: int) -> Seq<u8>
    decreases upto,
{
    if upto <= 0 {
        Seq::empty()
    } else {
        appended(written(list, upto - 1), list[upto - 1])
    }
}

/// What is written is read back: a file made by appending records one
/// after the other holds exactly these records, in that order.
pub proof fn lemma_records_round_trip(list: Seq<Seq<u8>>, upto: int)
    requires
        0 <= upto <= list.len(),
        forall|i: int| 0 <= i < list.len() ==> is_record(#[trigger] list[i]),
    ensures
        records(written(list, upto)) == list.subrange(0, upto),
    decreases upto,
{
    if upto == 0 {
        assert(records(written(list, 0)) =~= list.subrange(0, 0));
    } else {
        lemma_records_round_trip(list, upto - 1);
        lemma_append_only(written(list, upto - 1), list[upto - 1]);
        assert(list.subrange(0, upto) =~= list.subrange(0, upto - 1).push(list[upto - 1]));
    }
}

} // verus!
