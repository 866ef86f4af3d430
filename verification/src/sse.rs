//! Server-sent event bodies: from byte chunks to data records.
use crate::chat::{chunk_decoded, decode_chunk, ChatChunk};
use crate::text::{
    append_lf_only, find_break, first_break, has_prefix, is_break_at, lemma_break_from,
    lemma_break_is, lemma_lf_only_concat, lf_only, range_equals, range_has_prefix, string_of, trim,
    trim_bounds,
};
use openai_protocol::chat::ChatCompletionStreamResponse;
use vstd::prelude::*;
use vstd::utf8::{decode_utf8, pop_first_scalar, valid_utf8};

verus! {

/// The text of a record that carries data.
pub enum RecordText {
    /// The record that ends a stream.
    Done,
    /// A record with the given payload.
    Data(Seq<char>),
}

/// What one pull from a body yields: the record, if there is a complete one, and the text that
/// stays unread.
pub struct Pull {
    pub record: Option<RecordText>,
    pub rest: Seq<char>,
}

/// How a single record, already trimmed, reads: the end of the stream, a payload, or nothing where
/// it carries no data.
pub open spec fn read_record(record: Seq<char>) -> Option<RecordText> {
    if record.len() == 0 {
        None
    } else if record == "data: [DONE]"@ {
        Some(RecordText::Done)
    } else if has_prefix(record, "data: "@) {
        Some(RecordText::Data(trim(record.skip("data: "@.len() as int))))
    } else {
        None
    }
}

/// The first record of `s` that carries data. Records end at an empty line; those without data are
/// passed over.
pub open spec fn next_data(s: Seq<char>) -> Pull
    decreases s.len(),
{
    match first_break(s) {
        None => Pull { record: None, rest: s },
        Some(i) => {
            proof {
                lemma_break_from(s, 0);
            }
            let rest = s.skip(i + 2);
            match read_record(trim(s.take(i))) {
                Some(record) => Pull { record: Some(record), rest },
                None => next_data(rest),
            }
        },
    }
}

/// What the end of the body yields: the unfinished record, unless it is empty or the end of the
/// stream.
pub open spec fn last_data(s: Seq<char>) -> Pull {
    let record = trim(s);
    if record.len() == 0 || record == "data: [DONE]"@ {
        Pull { record: None, rest: s }
    } else {
        Pull { record: read_record(record), rest: seq![] }
    }
}

/// A pull shortens the text by what it reads.
pub proof fn lemma_next_data_shrinks(s: Seq<char>)
    ensures
        next_data(s).rest.len() <= s.len(),
        next_data(s).record is Some ==> next_data(s).rest.len() < s.len(),
    decreases s.len(),
{
    lemma_break_from(s, 0);
    if let Some(i) = first_break(s) {
        if read_record(trim(s.take(i))) is None {
            lemma_next_data_shrinks(s.skip(i + 2));
        }
    }
}

/// All complete records of `s`, in order.
pub open spec fn records(s: Seq<char>) -> Seq<RecordText>
    decreases s.len(),
{
    proof {
        lemma_next_data_shrinks(s);
    }
    match next_data(s).record {
        Some(record) => seq![record] + records(next_data(s).rest),
        None => seq![],
    }
}

/// The text behind the last complete record of `s`.
pub open spec fn remainder(s: Seq<char>) -> Seq<char>
    decreases s.len(),
{
    proof {
        lemma_next_data_shrinks(s);
    }
    match next_data(s).record {
        Some(_) => remainder(next_data(s).rest),
        None => next_data(s).rest,
    }
}

/// A record of a body.
#[derive(Debug)]
pub enum SseDataRecord {
    /// A chunk of a chat completion.
    ChatChunk(ChatCompletionStreamResponse),
    /// Any other payload, as it came.
    RawJson(String),
    /// The end of the stream.
    Done,
}

/// What an [`SseDataRecord`] says.
pub enum SseRecordView {
    ChatChunk(ChatCompletionStreamResponse),
    RawJson(Seq<char>),
    Done,
}

impl DeepView for SseDataRecord {
    type V = SseRecordView;

    open spec fn deep_view(&self) -> SseRecordView {
        match self {
            SseDataRecord::ChatChunk(chunk) => SseRecordView::ChatChunk(*chunk),
            SseDataRecord::RawJson(json) => SseRecordView::RawJson(json@),
            SseDataRecord::Done => SseRecordView::Done,
        }
    }
}

/// The record of a payload that decoded to the given chunk, or to none.
pub open spec fn classified(
    json: Seq<char>,
    decoded: Option<ChatCompletionStreamResponse>,
) -> SseRecordView {
    match decoded {
        Some(chunk) => SseRecordView::ChatChunk(chunk),
        None => SseRecordView::RawJson(json),
    }
}

/// The record that a text stands for.
pub open spec fn record_of(text: RecordText) -> SseRecordView {
    match text {
        RecordText::Done => SseRecordView::Done,
        RecordText::Data(json) => classified(json, chunk_decoded(json)),
    }
}

/// The record that an optional text stands for.
pub open spec fn record_of_opt(text: Option<RecordText>) -> Option<SseRecordView> {
    match text {
        Some(text) => Some(record_of(text)),
        None => None,
    }
}

/// The record of a payload, given what it decoded to.
pub fn classify_data(json: String, decoded: Option<ChatCompletionStreamResponse>) -> (res:
    SseDataRecord)
    ensures
        res.deep_view() == classified(json@, decoded),
{
    match decoded {
        Some(chunk) => SseDataRecord::ChatChunk(chunk),
        None => SseDataRecord::RawJson(json),
    }
}

/// What `String::from_utf8_lossy` makes of bytes.
pub uninterp spec fn utf8_lossy(bytes: Seq<u8>) -> Seq<char>;

/// Calls `String::from_utf8_lossy`: bytes that are valid UTF-8 are decoded. What stands in the
/// place of invalid bytes is left open, except that it depends on the bytes alone.
#[verifier::external_body]
fn lossy_text(bytes: &[u8]) -> (res: String)
    ensures
        res@ == utf8_lossy(bytes@),
        valid_utf8(bytes@) ==> res@ == decode_utf8(bytes@),
{
    String::from_utf8_lossy(bytes).into_owned()
}

/// Splits a body that arrives in chunks into its records.
pub struct SseBodyParser {
    pending: Vec<char>,
    offset: usize,
}

impl SseBodyParser {
    /// The part that was read lies inside the text.
    pub closed spec fn valid(self) -> bool {
        self.offset <= self.pending@.len()
    }

    /// The text that was received and not read yet.
    pub closed spec fn unread(self) -> Seq<char> {
        self.pending@.skip(self.offset as int)
    }

    /// A parser that has received nothing.
    pub fn new() -> (res: Self)
        ensures
            res.valid(),
            res.unread() == Seq::<char>::empty(),
    {
        let res = SseBodyParser { pending: Vec::new(), offset: 0 };
        proof {
            assert(res.unread() =~= Seq::<char>::empty());
        }
        res
    }

    /// Receives a chunk of the body. Its line endings are reduced to line feeds.
    pub fn push(&mut self, chunk: &[u8])
        requires
            old(self).valid(),
        ensures
            final(self).valid(),
            final(self).unread() == old(self).unread() + lf_only(utf8_lossy(chunk@)),
            valid_utf8(chunk@) ==> utf8_lossy(chunk@) == decode_utf8(chunk@),
    {
        let text = lossy_text(chunk);
        append_lf_only(&mut self.pending, text.as_str());
        proof {
            assert(self.unread() =~= old(self).unread() + lf_only(text@));
        }
    }

    /// Moves the offset to `end` and drops the text in front of it once that is over half of all.
    fn consume(&mut self, end: usize)
        requires
            old(self).valid(),
            old(self).offset <= end <= old(self).pending@.len(),
        ensures
            final(self).valid(),
            final(self).unread() == old(self).pending@.skip(end as int),
    {
        let ghost all = self.pending@;
        self.offset = end;
        if self.offset > self.pending.len() / 2 {
            let mut kept: Vec<char> = Vec::new();
            let n = self.pending.len();
            let mut i: usize = end;
            while i < n
                invariant
                    end <= i <= n,
                    n == self.pending@.len(),
                    self.pending@ == all,
                    kept@ == all.subrange(end as int, i as int),
                decreases n - i,
            {
                kept.push(self.pending[i]);
                proof {
                    assert(all.subrange(end as int, i + 1) =~= all.subrange(
                        end as int,
                        i as int,
                    ).push(all[i as int]));
                }
                i += 1;
            }
            proof {
                assert(kept@ =~= all.skip(end as int));
                assert(kept@.skip(0) =~= kept@);
            }
            self.pending = kept;
            self.offset = 0;
        }
    }

    /// The payload of the trimmed record between `start` and `end`.
    fn payload(&self, start: usize, end: usize) -> (res: Option<SseDataRecord>)
        requires
            start <= end <= self.pending@.len(),
        ensures
            res.deep_view() == (match read_record(
                self.pending@.subrange(start as int, end as int),
            ) {
                Some(RecordText::Data(json)) => record_of_opt(Some(RecordText::Data(json))),
                Some(RecordText::Done) => Some(SseRecordView::Done),
                None => None,
            }),
    {
        let ghost record = self.pending@.subrange(start as int, end as int);
        if start == end {
            return None;
        }
        if range_equals(&self.pending, start, end, "data: [DONE]") {
            return Some(SseDataRecord::Done);
        }
        if !range_has_prefix(&self.pending, start, end, "data: ") {
            return None;
        }
        proof {
            reveal_strlit("data: ");
            assert(record.skip(6) =~= self.pending@.subrange(start + 6, end as int));
        }
        let bounds = trim_bounds(&self.pending, start + 6, end);
        let json = string_of(&self.pending, bounds.0, bounds.1);
        let decoded = decode_chunk(json.as_str());
        Some(classify_data(json, decoded))
    }

    /// Takes the next complete record.
    pub fn next_record(&mut self) -> (res: Option<SseDataRecord>)
        requires
            old(self).valid(),
        ensures
            final(self).valid(),
            res.deep_view() == record_of_opt(next_data(old(self).unread()).record),
            final(self).unread() == next_data(old(self).unread()).rest,
    {
        let ghost whole = self.unread();
        loop
            invariant
                self.valid(),
                next_data(whole) == next_data(self.unread()),
                whole == old(self).unread(),
            decreases self.unread().len(),
        {
            let ghost text = self.unread();
            let n = self.pending.len();
            assert(n == self.pending@.len());
            let end = match find_break(&self.pending, self.offset) {
                Some(end) => end,
                None => {
                    return None;
                },
            };
            let bounds = trim_bounds(&self.pending, self.offset, end);
            let record = self.payload(bounds.0, bounds.1);
            proof {
                assert(text.take(end - self.offset) =~= self.pending@.subrange(
                    self.offset as int,
                    end as int,
                ));
                assert(text.skip(end - self.offset + 2) =~= self.pending@.skip(end + 2));
            }
            self.consume(end + 2);
            if record.is_some() {
                return record;
            }
        }
    }

    /// Takes what is left at the end of the body.
    pub fn flush(&mut self) -> (res: Option<SseDataRecord>)
        requires
            old(self).valid(),
        ensures
            final(self).valid(),
            res.deep_view() == record_of_opt(last_data(old(self).unread()).record),
            final(self).unread() == last_data(old(self).unread()).rest,
    {
        let n = self.pending.len();
        let bounds = trim_bounds(&self.pending, self.offset, n);
        proof {
            assert(self.unread() =~= self.pending@.subrange(self.offset as int, n as int));
        }
        if bounds.0 == bounds.1 || range_equals(&self.pending, bounds.0, bounds.1, "data: [DONE]") {
            return None;
        }
        let record = self.payload(bounds.0, bounds.1);
        self.offset = n;
        proof {
            assert(self.unread() =~= Seq::<char>::empty());
        }
        record
    }
}

/// Text that follows does not change where the first record of a text ends.
proof fn lemma_first_break_concat(x: Seq<char>, y: Seq<char>)
    requires
        first_break(x) is Some,
    ensures
        first_break(x + y) == first_break(x),
{
    lemma_break_from(x, 0);
    let i = first_break(x)->0;
    assert(is_break_at(x + y, i));
    assert forall|j: int| 0 <= j < i implies !#[trigger] is_break_at(x + y, j) by {
        assert(!is_break_at(x, j));
    }
    lemma_break_is(x + y, 0, i);
}

/// A pull from a text that goes on yields what a pull from its beginning yields, as soon as that
/// holds a complete record with data.
pub proof fn lemma_next_data_concat(x: Seq<char>, y: Seq<char>)
    ensures
        next_data(x).record is Some ==> next_data(x + y) == (Pull {
            record: next_data(x).record,
            rest: next_data(x).rest + y,
        }),
        next_data(x).record is None ==> next_data(x + y) == next_data(next_data(x).rest + y),
    decreases x.len(),
{
    if let Some(i) = first_break(x) {
        lemma_break_from(x, 0);
        lemma_first_break_concat(x, y);
        assert((x + y).take(i) =~= x.take(i));
        assert((x + y).skip(i + 2) =~= x.skip(i + 2) + y);
        lemma_next_data_concat(x.skip(i + 2), y);
    }
}

/// Where a pull yields no record, the text that it leaves holds none.
pub proof fn lemma_left_text_holds_no_record(s: Seq<char>)
    requires
        next_data(s).record is None,
    ensures
        next_data(next_data(s).rest) == next_data(s),
    decreases s.len(),
{
    if let Some(i) = first_break(s) {
        lemma_break_from(s, 0);
        lemma_left_text_holds_no_record(s.skip(i + 2));
    }
}

/// Records do not depend on how a body is cut: what is read from a first part, and then from the
/// text left of it with a second part behind, is what is read from both parts at once.
pub proof fn law_records_do_not_depend_on_cuts(x: Seq<char>, y: Seq<char>)
    ensures
        records(x + y) == records(x) + records(remainder(x) + y),
        remainder(x + y) == remainder(remainder(x) + y),
    decreases x.len(),
{
    lemma_next_data_shrinks(x);
    lemma_next_data_concat(x, y);
    match next_data(x).record {
        Some(record) => {
            law_records_do_not_depend_on_cuts(next_data(x).rest, y);
            assert(records(x + y) =~= records(x) + records(remainder(x) + y));
        },
        None => {
            assert(records(x + y) =~= records(x) + records(remainder(x) + y));
        },
    }
}

/// Valid UTF-8 decodes piece by piece.
proof fn lemma_decode_concat(a: Seq<u8>, b: Seq<u8>)
    requires
        valid_utf8(a),
        valid_utf8(b),
    ensures
        valid_utf8(a + b),
        decode_utf8(a + b) == decode_utf8(a) + decode_utf8(b),
    decreases a.len(),
{
    if a.len() == 0 {
        assert(a + b =~= b);
        assert(decode_utf8(a) + decode_utf8(b) =~= decode_utf8(b));
    } else {
        let tail = pop_first_scalar(a);
        lemma_decode_concat(tail, b);
        assert(pop_first_scalar(a + b) =~= tail + b);
        assert(decode_utf8(a + b) =~= decode_utf8(a) + decode_utf8(b));
    }
}

/// Two chunks of valid UTF-8 read as their bytes joined, except where a carriage return ends the
/// first and its line feed starts the second.
pub proof fn law_chunks_join(a: Seq<u8>, b: Seq<u8>)
    requires
        valid_utf8(a),
        valid_utf8(b),
        !(decode_utf8(a).len() > 0 && decode_utf8(b).len() > 0 && decode_utf8(a).last() == '\r'
            && decode_utf8(b)[0] == '\n'),
    ensures
        valid_utf8(a + b),
        lf_only(decode_utf8(a + b)) == lf_only(decode_utf8(a)) + lf_only(decode_utf8(b)),
{
    lemma_decode_concat(a, b);
    lemma_lf_only_concat(decode_utf8(a), decode_utf8(b));
}

} // verus!
