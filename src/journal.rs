use vstd::prelude::*;

use crate::model::LogError;

verus! {

broadcast use vstd::string::group_string_axioms;

/// The line separator of the log.
pub open spec fn separator() -> char {
    '\n'
}

/// A record can stand as one line of the log: it holds no separator.
pub open spec fn single_line(record: Seq<char>) -> bool {
    !record.contains(separator())
}

/// The text that one record adds to the log.
pub open spec fn framed(record: Seq<char>) -> Seq<char> {
    record.push(separator())
}

/// The text of a log holding the given records, oldest first.
pub open spec fn log_text(records: Seq<Seq<char>>) -> Seq<char>
    decreases records.len(),
{
    if records.len() == 0 {
        Seq::empty()
    } else {
        framed(records[0]) + log_text(records.drop_first())
    }
}

/// The position of the first separator in `text`, or its length if it holds none.
pub open spec fn line_end(text: Seq<char>) -> nat
    decreases text.len(),
{
    if text.len() == 0 || text[0] == separator() {
        0
    } else {
        1 + line_end(text.drop_first())
    }
}

/// The lines of a text, without their separators; a last line without a
/// separator counts too.
pub open spec fn lines_of(text: Seq<char>) -> Seq<Seq<char>>
    decreases text.len(),
{
    if text.len() == 0 {
        Seq::empty()
    } else {
        let k = line_end(text);
        if k < text.len() {
            seq![text.take(k as int)] + lines_of(text.skip(k + 1 as int))
        } else {
            seq![text]
        }
    }
}

/// Frames an encoded record as one line of the log, or refuses it with
/// `SerializationFailed` when it would not stand on one line.
pub fn frame_record(record: String) -> (r: Result<String, LogError>)
    ensures
        r is Ok <==> single_line(record@),
        r matches Ok(line) ==> line@ == framed(record@),
        r matches Err(e) ==> e == LogError::SerializationFailed,
{
    let mut one_line = true;
    for c in it: record.as_str().chars()
        invariant
            it.seq() == record@,
            one_line <==> forall|j: int| 0 <= j < it.index() ==> it.seq()[j] != separator(),
    {
        if c == '\n' {
            one_line = false;
        }
    }
    proof {
        if record@.contains(separator()) {
            let j = choose|j: int| 0 <= j < record@.len() && record@[j] == separator();
            assert(!one_line);
        }
    }
    if one_line {
        let line = record.concat("\n");
        proof {
            reveal_strlit("\n");
        }
        Ok(line)
    } else {
        Err(LogError::SerializationFailed)
    }
}

proof fn lemma_line_end(record: Seq<char>, rest: Seq<char>)
    requires
        single_line(record),
    ensures
        line_end(framed(record) + rest) == record.len(),
    decreases record.len(),
{
    let text = framed(record) + rest;
    if record.len() == 0 {
        assert(text[0] == separator());
    } else {
        assert(text[0] == record[0]);
        assert(record.contains(record[0]));
        let tail = record.drop_first();
        assert(single_line(tail)) by {
            if tail.contains(separator()) {
                let i = choose|i: int| 0 <= i < tail.len() && tail[i] == separator();
                assert(record[i + 1] == separator());
            }
        }
        assert(text.drop_first() == framed(tail) + rest);
        lemma_line_end(tail, rest);
    }
}

/// Appending one more record to a log adds exactly its framed line at the end.
pub proof fn lemma_log_append(records: Seq<Seq<char>>, record: Seq<char>)
    ensures
        log_text(records.push(record)) == log_text(records) + framed(record),
    decreases records.len(),
{
    if records.len() == 0 {
        let one = records.push(record);
        assert(one[0] == record);
        assert(one.drop_first() == Seq::<Seq<char>>::empty());
        assert(log_text(Seq::<Seq<char>>::empty()) == Seq::<char>::empty());
        assert(framed(record) + Seq::<char>::empty() == framed(record));
        assert(log_text(records) == Seq::<char>::empty());
        assert(Seq::<char>::empty() + framed(record) == framed(record));
    } else {
        assert(records.push(record).drop_first() == records.drop_first().push(record));
        lemma_log_append(records.drop_first(), record);
        assert(log_text(records.push(record)) == framed(records[0]) + (log_text(
            records.drop_first(),
        ) + framed(record)));
    }
}

/// A log made of single-line records reads back as exactly those records, one
/// line each: `n` appended records give `n` lines, in the order they came.
pub proof fn lemma_log_lines(records: Seq<Seq<char>>)
    requires
        forall|i: int| 0 <= i < records.len() ==> single_line(#[trigger] records[i]),
    ensures
        lines_of(log_text(records)) == records,
        lines_of(log_text(records)).len() == records.len(),
    decreases records.len(),
{
    if records.len() > 0 {
        let r = records[0];
        let rest = log_text(records.drop_first());
        let text = framed(r) + rest;
        lemma_line_end(r, rest);
        assert(text.take(r.len() as int) == r);
        assert(text.skip(r.len() + 1 as int) == rest);
        assert forall|i: int| 0 <= i < records.drop_first().len() implies single_line(
            #[trigger] records.drop_first()[i],
        ) by {
            assert(records.drop_first()[i] == records[i + 1]);
        }
        lemma_log_lines(records.drop_first());
        assert(seq![r] + records.drop_first() == records);
    }
}

} // verus!
