//! What holds of the records of a body.
use crate::chat::chunk_decoded;
use crate::sse::{
    last_data, next_data, read_record, record_of, Pull, RecordText, SseRecordView,
};
use crate::text::{
    decimal, digit, first_break, is_break_at, is_white_space, lemma_break_from, lemma_break_is,
    lemma_lf_only_concat, lf_only, trim, trim_end, trim_start,
};
use vstd::prelude::*;

verus! {

/// A text has no white space at its ends.
pub open spec fn is_tight(s: Seq<char>) -> bool {
    s.len() > 0 ==> !is_white_space(s[0]) && !is_white_space(s.last())
}

/// A text is all white space.
pub open spec fn is_blank(s: Seq<char>) -> bool {
    forall|i: int| 0 <= i < s.len() ==> is_white_space(#[trigger] s[i])
}

/// Two line feeds stand nowhere next to each other in a text, and none at its end.
pub open spec fn is_one_record(s: Seq<char>) -> bool {
    &&& s.len() > 0 ==> s.last() != '\n'
    &&& forall|i: int| 0 <= i < s.len() - 1 ==> !(#[trigger] s[i] == '\n' && s[i + 1] == '\n')
}

/// White space are the characters from the tabulator to the carriage return, the blank, the next
/// line, the blanks of other widths, whether they break a line or not, and the separators of lines
/// and paragraphs.
pub proof fn law_white_space_is_that_of_unicode(c: char)
    ensures
        is_white_space(c) <==> {
            ||| '\t' <= c && c <= '\r'
            ||| c == ' '
            ||| c == '\u{85}'
            ||| c == '\u{a0}'
            ||| c == '\u{1680}'
            ||| '\u{2000}' <= c && c <= '\u{200a}'
            ||| c == '\u{2028}'
            ||| c == '\u{2029}'
            ||| c == '\u{202f}'
            ||| c == '\u{205f}'
            ||| c == '\u{3000}'
        },
{
}

/// A text without leading white space ends a text that starts with nothing else.
proof fn lemma_trim_start(s: Seq<char>) -> (n: int)
    ensures
        0 <= n <= s.len(),
        trim_start(s) == s.skip(n),
        is_blank(s.take(n)),
        trim_start(s).len() > 0 ==> !is_white_space(trim_start(s)[0]),
    decreases s.len(),
{
    if s.len() > 0 && is_white_space(s[0]) {
        let m = lemma_trim_start(s.skip(1));
        assert(s.skip(1).skip(m) =~= s.skip(m + 1));
        assert forall|i: int| 0 <= i < m + 1 implies is_white_space(
            #[trigger] s.take(m + 1)[i],
        ) by {
            if i > 0 {
                assert(s.skip(1).take(m)[i - 1] == s.take(m + 1)[i]);
            }
        }
        m + 1
    } else {
        assert(s.skip(0) =~= s);
        0
    }
}

/// A text without trailing white space starts a text that ends with nothing else.
proof fn lemma_trim_end(s: Seq<char>) -> (n: int)
    ensures
        0 <= n <= s.len(),
        trim_end(s) == s.take(n),
        is_blank(s.skip(n)),
        trim_end(s).len() > 0 ==> !is_white_space(trim_end(s).last()),
    decreases s.len(),
{
    if s.len() > 0 && is_white_space(s.last()) {
        let m = lemma_trim_end(s.drop_last());
        assert(s.drop_last().take(m) =~= s.take(m));
        assert forall|i: int| 0 <= i < s.len() - m implies is_white_space(
            #[trigger] s.skip(m)[i],
        ) by {
            if i < s.len() - m - 1 {
                assert(s.drop_last().skip(m)[i] == s.skip(m)[i]);
            }
        }
        m
    } else {
        assert(s.take(s.len() as int) =~= s);
        s.len() as int
    }
}

/// Trimming takes the white space off both ends of a text, and nothing else.
pub proof fn law_trimming_takes_white_space_off_the_ends(s: Seq<char>)
    ensures
        is_tight(trim(s)),
        exists|head: Seq<char>, tail: Seq<char>| #[trigger]
            is_blank(head) && #[trigger] is_blank(tail) && s == head + trim(s) + tail,
{
    let n = lemma_trim_start(s);
    let inner = trim_start(s);
    let m = lemma_trim_end(inner);
    let head = s.take(n);
    let tail = inner.skip(m);
    assert(s =~= head + trim(s) + tail);
    assert(is_blank(head) && is_blank(tail));
    if trim(s).len() > 0 {
        assert(trim(s)[0] == inner[0]);
    }
}

/// A text without white space at its ends stays as it is.
proof fn lemma_tight_stays(s: Seq<char>)
    requires
        is_tight(s),
    ensures
        trim(s) == s,
{
}

/// Each pair of a carriage return and a line feed becomes a line feed. Text without such a pair
/// stays as it is.
pub proof fn law_line_endings_become_line_feeds(a: Seq<char>, b: Seq<char>)
    ensures
        lf_only(a + seq!['\r', '\n'] + b) == lf_only(a) + seq!['\n'] + lf_only(b),
        (forall|i: int| 0 <= i < a.len() - 1 ==> !(#[trigger] a[i] == '\r' && a[i + 1] == '\n'))
            ==> lf_only(a) == a,
{
    let pair = seq!['\r', '\n'];
    let second = pair + b;
    assert(a + pair + b =~= a + second);
    lemma_lf_only_concat(a, second);
    assert(second[0] == '\r' && second[1] == '\n');
    assert(second.skip(2) =~= b);
    assert(lf_only(a) + (seq!['\n'] + lf_only(b)) =~= lf_only(a) + seq!['\n'] + lf_only(b));
    if forall|i: int| 0 <= i < a.len() - 1 ==> !(#[trigger] a[i] == '\r' && a[i + 1] == '\n') {
        lemma_no_pair_stays(a);
    }
}

/// Text without a pair of a carriage return and a line feed stays as it is.
proof fn lemma_no_pair_stays(s: Seq<char>)
    requires
        forall|i: int| 0 <= i < s.len() - 1 ==> !(#[trigger] s[i] == '\r' && s[i + 1] == '\n'),
    ensures
        lf_only(s) == s,
    decreases s.len(),
{
    if s.len() > 0 {
        let rest = s.skip(1);
        assert forall|i: int| 0 <= i < rest.len() - 1 implies !(#[trigger] rest[i] == '\r'
            && rest[i + 1] == '\n') by {
            assert(rest[i] == s[i + 1]);
            assert(rest[i + 1] == s[i + 2]);
        }
        assert(!(s.len() >= 2 && s[0] == '\r' && s[1] == '\n'));
        lemma_no_pair_stays(rest);
        assert(seq![s[0]] + rest =~= s);
    }
}

/// The first empty line behind one record is the one that ends it.
proof fn lemma_record_break(record: Seq<char>, rest: Seq<char>)
    requires
        is_one_record(record),
    ensures
        first_break(record + seq!['\n', '\n'] + rest) == Some(record.len() as int),
        (record + seq!['\n', '\n'] + rest).take(record.len() as int) == record,
        (record + seq!['\n', '\n'] + rest).skip(record.len() as int + 2) == rest,
{
    let s = record + seq!['\n', '\n'] + rest;
    let n = record.len() as int;
    assert(s.take(n) =~= record);
    assert(s.skip(n + 2) =~= rest);
    assert(is_break_at(s, n));
    assert forall|j: int| 0 <= j < n implies !#[trigger] is_break_at(s, j) by {
        assert(s[j] == record[j]);
        if j + 1 < n {
            assert(s[j + 1] == record[j + 1]);
        }
    }
    lemma_break_is(s, 0, n);
}

/// What a record holds behind `data: ` is read without the white space around it, whatever white
/// space the record itself has around it.
pub proof fn law_data_is_read_without_white_space(record: Seq<char>, rest: Seq<char>)
    requires
        is_one_record(record),
        trim(record).len() >= 6,
        trim(record).take(6) == "data: "@,
        trim(record).skip(6) != "[DONE]"@,
    ensures
        next_data(record + seq!['\n', '\n'] + rest) == (Pull {
            record: Some(RecordText::Data(trim(trim(record).skip(6)))),
            rest,
        }),
        last_data(record) == (Pull {
            record: Some(RecordText::Data(trim(trim(record).skip(6)))),
            rest: seq![],
        }),
{
    reveal_strlit("data: ");
    reveal_strlit("[DONE]");
    reveal_strlit("data: [DONE]");
    lemma_record_break(record, rest);
    if trim(record) == "data: [DONE]"@ {
        assert("data: [DONE]"@.skip(6) =~= "[DONE]"@);
    }
}

/// The end of a stream is read whatever white space stands around its record.
pub proof fn law_the_end_is_read_without_white_space(record: Seq<char>, rest: Seq<char>)
    requires
        is_one_record(record),
        trim(record) == "data: [DONE]"@,
    ensures
        next_data(record + seq!['\n', '\n'] + rest) == (Pull {
            record: Some(RecordText::Done),
            rest,
        }),
        last_data(record) == (Pull { record: None, rest: record }),
{
    reveal_strlit("data: [DONE]");
    lemma_record_break(record, rest);
}

/// A record of a body that carries data is read as its payload, and what follows it stays unread.
pub proof fn law_data_records_are_read(payload: Seq<char>, rest: Seq<char>)
    requires
        payload.len() > 0,
        is_tight(payload),
        is_one_record(payload),
        payload != "[DONE]"@,
    ensures
        next_data("data: "@ + payload + seq!['\n', '\n'] + rest) == (Pull {
            record: Some(RecordText::Data(payload)),
            rest,
        }),
        last_data("data: "@ + payload).record == Some(RecordText::Data(payload)),
        last_data("data: "@ + payload).rest.len() == 0,
{
    let record = "data: "@ + payload;
    lemma_data_record(payload);
    lemma_record_break(record, rest);
    lemma_tight_stays(record);
}

/// How the record of a payload reads.
proof fn lemma_data_record(payload: Seq<char>)
    requires
        payload.len() > 0,
        is_tight(payload),
        is_one_record(payload),
        payload != "[DONE]"@,
    ensures
        is_tight("data: "@ + payload),
        is_one_record("data: "@ + payload),
        "data: "@ + payload != "data: [DONE]"@,
        read_record("data: "@ + payload) == Some(RecordText::Data(payload)),
{
    reveal_strlit("data: ");
    reveal_strlit("[DONE]");
    reveal_strlit("data: [DONE]");
    let record = "data: "@ + payload;
    assert("data: [DONE]"@ =~= "data: "@ + "[DONE]"@);
    assert(record.skip(6) =~= payload);
    if record == "data: [DONE]"@ {
        assert("data: [DONE]"@.skip(6) =~= "[DONE]"@);
    }
    assert(record.take(6) =~= "data: "@);
    lemma_tight_stays(payload);
    assert(record.last() == payload.last());
    assert forall|i: int| 0 <= i < record.len() - 1 implies !(#[trigger] record[i] == '\n'
        && record[i + 1] == '\n') by {
        if i >= 6 {
            assert(record[i] == payload[i - 6]);
            assert(record[i + 1] == payload[i - 5]);
        }
    }
}

/// The record that ends a stream is read as the end, and what follows it stays unread. As the last
/// that a body left it stands for nothing.
pub proof fn law_the_end_is_read(rest: Seq<char>)
    ensures
        next_data("data: [DONE]"@ + seq!['\n', '\n'] + rest) == (Pull {
            record: Some(RecordText::Done),
            rest,
        }),
        last_data("data: [DONE]"@).record is None,
{
    reveal_strlit("data: [DONE]");
    let record = "data: [DONE]"@;
    assert(is_one_record(record)) by {
        assert forall|i: int| 0 <= i < record.len() - 1 implies !(#[trigger] record[i] == '\n'
            && record[i + 1] == '\n') by {
            assert(record[i] != '\n');
        }
    }
    assert(is_tight(record));
    lemma_record_break(record, rest);
    lemma_tight_stays(record);
}

/// Records that do not start with `data: `, such as comments, and empty ones are passed over.
pub proof fn law_other_records_are_passed_over(record: Seq<char>, rest: Seq<char>)
    requires
        is_one_record(record),
        trim(record).len() < 6 || trim(record).take(6) != "data: "@,
    ensures
        next_data(record + seq!['\n', '\n'] + rest) == next_data(rest),
        last_data(record).record is None,
{
    reveal_strlit("data: ");
    reveal_strlit("data: [DONE]");
    lemma_record_break(record, rest);
    if trim(record) == "data: [DONE]"@ {
        assert("data: [DONE]"@.take(6) =~= "data: "@);
    }
    let s = record + seq!['\n', '\n'] + rest;
    lemma_break_from(s, 0);
    assert(read_record(trim(record)) is None);
}

/// A text without an empty line holds no complete record, and all of it stays unread.
pub proof fn law_unfinished_records_wait(s: Seq<char>)
    requires
        forall|i: int| 0 <= i < s.len() - 1 ==> !(#[trigger] s[i] == '\n' && s[i + 1] == '\n'),
    ensures
        next_data(s) == (Pull { record: None, rest: s }),
{
    lemma_break_from(s, 0);
    if let Some(i) = first_break(s) {
        assert(is_break_at(s, i));
        assert(s[i] == '\n' && s[i + 1] == '\n');
    }
}

/// A payload that decodes to a chunk stands for it, and any other stands for itself.
pub proof fn law_payloads_stand_for_chunks_or_themselves(json: Seq<char>)
    ensures
        chunk_decoded(json) matches Some(chunk) ==> record_of(RecordText::Data(json))
            == SseRecordView::ChatChunk(chunk),
        chunk_decoded(json) is None ==> record_of(RecordText::Data(json))
            == SseRecordView::RawJson(json),
        record_of(RecordText::Done) == SseRecordView::Done,
{
}

/// The number that a numeral of decimal digits stands for.
pub open spec fn number_of(numeral: Seq<char>) -> int
    decreases numeral.len(),
{
    if numeral.len() == 0 {
        0
    } else {
        10 * number_of(numeral.drop_last()) + (numeral.last() as int - '0' as int)
    }
}

/// The decimal numeral of a number consists of decimal digits and stands for the number.
pub proof fn law_numerals_stand_for_their_numbers(n: nat)
    ensures
        number_of(decimal(n)) == n,
        decimal(n).len() > 0,
        forall|i: int| 0 <= i < decimal(n).len() ==> '0' <= #[trigger] decimal(n)[i] <= '9',
        n > 0 ==> decimal(n)[0] != '0',
    decreases n,
{
    if n < 10 {
        assert(decimal(n).drop_last() =~= Seq::<char>::empty());
        assert(decimal(n).last() == digit(n));
        assert(number_of(decimal(n).drop_last()) == 0);
        assert(digit(n) as int - '0' as int == n);
    } else {
        law_numerals_stand_for_their_numbers(n / 10);
        let head = decimal(n / 10);
        assert(decimal(n).drop_last() =~= head);
        assert(decimal(n).last() == digit(n % 10));
        assert(digit(n % 10) as int - '0' as int == n % 10);
        assert forall|i: int| 0 <= i < decimal(n).len() implies '0' <= #[trigger] decimal(n)[i]
            <= '9' by {
            if i < head.len() {
                assert(decimal(n)[i] == head[i]);
            }
        }
        assert(decimal(n)[0] == head[0]);
    }
}

} // verus!
