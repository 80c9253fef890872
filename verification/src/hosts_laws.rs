//! What holds of every record that is read from a configuration text.

use crate::hosts::{
    blocks_from, blocks_of, display_name_of, empty_record, is_complete, is_dotted_numeric,
    is_host_line, line_at, next_host_line, parsed, read_line, read_lines, record_of, records_of,
    ListView,
};
use crate::text::{find_from, first_word, lemma_find_from, lemma_word_bounds, trim};
use vstd::prelude::*;

verus! {

/// Every record that a list of blocks gives has an alias and a hostname.
pub proof fn law_records_are_complete(blocks: Seq<Seq<char>>, i: int)
    requires
        0 <= i < records_of(blocks).len(),
    ensures
        records_of(blocks)[i].alias.len() > 0,
        records_of(blocks)[i].hostname.len() > 0,
{
    blocks.map_values(|b: Seq<char>| record_of(b)).lemma_filter_pred(
        |r: ListView| is_complete(r),
        i,
    );
}

/// Every record that is read from a configuration text has an alias and a
/// hostname.
pub proof fn law_parsed_records_are_complete(input: Seq<char>, i: int)
    requires
        0 <= i < parsed(input).len(),
    ensures
        parsed(input)[i].alias.len() > 0,
        parsed(input)[i].hostname.len() > 0,
{
    law_records_are_complete(blocks_of(input), i);
}

/// Whether the display name of `r` is the one that belongs to its hostname.
pub open spec fn is_labelled(r: ListView) -> bool {
    r.display_name == display_name_of(r.hostname)
}

/// Reading lines keeps the display name in step with the hostname.
proof fn lemma_read_lines_labels(block: Seq<char>, from: int, r: ListView)
    requires
        is_labelled(r),
    ensures
        is_labelled(read_lines(block, from, r)),
    decreases block.len() - from,
{
    let end = find_from(block, '\n', from);
    let next = read_line(r, block.subrange(from, end));
    if !(from > end || end >= block.len()) {
        lemma_read_lines_labels(block, end + 1, next);
    }
}

/// The display-name rule, of the record that any block describes: where
/// the hostname is a dotted numeric address, every character other than `.`
/// a digit, the display name is the hostname; otherwise it is what stands
/// before the first `.` of the hostname, and all of the hostname where that
/// has no `.`.
pub proof fn law_display_name_rule_of_a_block(block: Seq<char>)
    ensures
        record_of(block).display_name == display_name_of(record_of(block).hostname),
        is_dotted_numeric(record_of(block).hostname) ==> record_of(block).display_name
            == record_of(block).hostname,
        !is_dotted_numeric(record_of(block).hostname) ==> record_of(block).display_name
            == record_of(block).hostname.take(find_from(record_of(block).hostname, '.', 0)),
{
    assert(is_labelled(empty_record())) by {
        assert(is_dotted_numeric(empty_record().hostname));
    }
    lemma_read_lines_labels(block, 0, empty_record());
}

/// The display-name rule, of every record that a list of blocks gives.
pub proof fn law_display_name_rule_of_blocks(blocks: Seq<Seq<char>>, i: int)
    requires
        0 <= i < records_of(blocks).len(),
    ensures
        records_of(blocks)[i].display_name == display_name_of(records_of(blocks)[i].hostname),
        is_dotted_numeric(records_of(blocks)[i].hostname) ==> records_of(blocks)[i].display_name
            == records_of(blocks)[i].hostname,
        !is_dotted_numeric(records_of(blocks)[i].hostname) ==> records_of(blocks)[i].display_name
            == records_of(blocks)[i].hostname.take(
            find_from(records_of(blocks)[i].hostname, '.', 0),
        ),
{
    let records = blocks.map_values(|b: Seq<char>| record_of(b));
    let kept = records_of(blocks);
    assert(kept.contains(kept[i]));
    records.lemma_filter_contains_rev(|r: ListView| is_complete(r), kept[i]);
    let k = choose|k: int| 0 <= k < records.len() && records[k] == kept[i];
    law_display_name_rule_of_a_block(blocks[k]);
}

/// The display-name rule, of every record that is read from a configuration
/// text.
pub proof fn law_display_name_rule(input: Seq<char>, i: int)
    requires
        0 <= i < parsed(input).len(),
    ensures
        parsed(input)[i].display_name == display_name_of(parsed(input)[i].hostname),
        is_dotted_numeric(parsed(input)[i].hostname) ==> parsed(input)[i].display_name == parsed(
            input,
        )[i].hostname,
        !is_dotted_numeric(parsed(input)[i].hostname) ==> parsed(input)[i].display_name == parsed(
            input,
        )[i].hostname.take(find_from(parsed(input)[i].hostname, '.', 0)),
{
    law_display_name_rule_of_blocks(blocks_of(input), i);
}

/// A display name that is no dotted numeric address holds no `.`.
pub proof fn law_label_has_no_dot(hostname: Seq<char>, k: int)
    requires
        !is_dotted_numeric(hostname),
        0 <= k < display_name_of(hostname).len(),
    ensures
        display_name_of(hostname)[k] != '.',
{
    lemma_find_from(hostname, '.', 0);
}

/// The blocks of `blocks`, one after another.
pub open spec fn rejoined(blocks: Seq<Seq<char>>) -> Seq<char>
    decreases blocks.len(),
{
    if blocks.len() == 0 {
        Seq::empty()
    } else {
        blocks[0] + rejoined(blocks.skip(1))
    }
}

/// Whether a line begins at position `p` of `s` behind a line feed.
pub open spec fn follows_line_feed(s: Seq<char>, p: int) -> bool {
    0 < p < s.len() && s[p - 1] == '\n'
}

/// A line that begins a block holds something.
proof fn lemma_host_line_is_not_empty(line: Seq<char>)
    requires
        is_host_line(line),
    ensures
        line.len() > 0,
{
    lemma_word_bounds(line, 0);
    if line.len() == 0 {
        assert(first_word(line).len() == 0);
    }
}

/// What `next_host_line` finds: a line that begins a block, behind a line
/// feed after `from`, with no such line between `from` and it.
proof fn lemma_next_host_line(s: Seq<char>, from: int)
    requires
        0 <= from <= s.len(),
    ensures
        from <= next_host_line(s, from) <= s.len(),
        next_host_line(s, from) < s.len() ==> from < next_host_line(s, from) && s[next_host_line(
            s,
            from,
        ) - 1] == '\n' && is_host_line(line_at(s, next_host_line(s, from))),
        forall|p: int|
            from < p < next_host_line(s, from) && s[p - 1] == '\n' ==> !is_host_line(
                #[trigger] line_at(s, p),
            ),
    decreases s.len() - from,
{
    lemma_find_from(s, '\n', from);
    let end = find_from(s, '\n', from);
    if end < s.len() {
        lemma_next_host_line(s, end + 1);
        if is_host_line(line_at(s, end + 1)) {
            lemma_find_from(s, '\n', end + 1);
            lemma_host_line_is_not_empty(line_at(s, end + 1));
        }
        assert forall|p: int|
            from < p < next_host_line(s, from) && s[p - 1] == '\n' implies !is_host_line(
            #[trigger] line_at(s, p),
        ) by {
            if p - 1 < end {
                assert(s[p - 1] != '\n');
            }
        }
    }
}

/// Seeking a character in a part of a text finds what seeking it in the
/// text finds, or the end of the part where that lies first.
proof fn lemma_find_in_part(s: Seq<char>, a: int, b: int, c: char, p: int)
    requires
        0 <= a <= b <= s.len(),
        0 <= p <= b - a,
    ensures
        find_from(s.subrange(a, b), c, p) == (if find_from(s, c, a + p) < b {
            find_from(s, c, a + p)
        } else {
            b
        }) - a,
    decreases b - a - p,
{
    lemma_find_from(s, c, a + p);
    if p < b - a {
        assert(s.subrange(a, b)[p] == s[a + p]);
        if s[a + p] != c {
            lemma_find_in_part(s, a, b, c, p + 1);
        }
    }
}

/// A line of a part of a text is the line of the text at the same place,
/// where the part ends with the text or behind a line feed.
proof fn lemma_line_in_part(s: Seq<char>, a: int, b: int, p: int)
    requires
        0 <= a <= b <= s.len(),
        0 <= p <= b - a,
        b == s.len() || (a + p < b && s[b - 1] == '\n'),
    ensures
        line_at(s.subrange(a, b), p) == line_at(s, a + p),
{
    lemma_find_in_part(s, a, b, '\n', p);
    lemma_find_from(s, '\n', a + p);
    let end = find_from(s, '\n', a + p);
    if b < s.len() {
        assert(end <= b - 1) by {
            if end > b - 1 {
                assert(s[b - 1] != '\n');
            }
        }
    }
    assert(s.subrange(a, b).subrange(p, end - a) =~= s.subrange(a + p, end));
}

/// The first block from a place on is cut from the text at that place.
proof fn lemma_first_block(s: Seq<char>, from: int)
    requires
        0 <= from <= s.len(),
    ensures
        blocks_from(s, from).len() >= 1,
        line_at(blocks_from(s, from)[0], 0) == line_at(s, from),
{
    lemma_next_host_line(s, from);
    let cut = next_host_line(s, from);
    if from >= cut || cut >= s.len() {
        lemma_line_in_part(s, from, s.len() as int, 0);
    } else {
        lemma_line_in_part(s, from, cut, 0);
    }
}

/// The blocks from a place on, one after another, are the text from that
/// place on.
proof fn lemma_blocks_rejoin(s: Seq<char>, from: int)
    requires
        0 <= from <= s.len(),
    ensures
        rejoined(blocks_from(s, from)) == s.subrange(from, s.len() as int),
    decreases s.len() - from,
{
    lemma_next_host_line(s, from);
    let cut = next_host_line(s, from);
    if from >= cut || cut >= s.len() {
        let only = seq![s.subrange(from, s.len() as int)];
        assert(only.skip(1) =~= Seq::<Seq<char>>::empty());
        assert(rejoined(only.skip(1)) =~= Seq::<char>::empty());
        assert(rejoined(only) =~= s.subrange(from, s.len() as int));
    } else {
        lemma_blocks_rejoin(s, cut);
        let rest = blocks_from(s, cut);
        let all = blocks_from(s, from);
        assert(all =~= seq![s.subrange(from, cut)] + rest);
        assert(all.skip(1) =~= rest);
        assert(s.subrange(from, cut) + s.subrange(cut, s.len() as int) =~= s.subrange(
            from,
            s.len() as int,
        ));
    }
}

/// Every block but the first begins with a line that begins a block, and
/// no block holds such a line behind its first.
proof fn lemma_blocks_are_cut_at_host_lines(s: Seq<char>, from: int, k: int)
    requires
        0 <= from <= s.len(),
        0 <= k < blocks_from(s, from).len(),
    ensures
        k > 0 ==> is_host_line(line_at(blocks_from(s, from)[k], 0)),
        forall|p: int|
            follows_line_feed(blocks_from(s, from)[k], p) ==> !is_host_line(
                #[trigger] line_at(blocks_from(s, from)[k], p),
            ),
    decreases s.len() - from,
{
    lemma_next_host_line(s, from);
    let cut = next_host_line(s, from);
    let all = blocks_from(s, from);
    if from >= cut || cut >= s.len() {
        let block = s.subrange(from, s.len() as int);
        assert(all =~= seq![block]);
        assert forall|p: int| follows_line_feed(block, p) implies !is_host_line(
            #[trigger] line_at(block, p),
        ) by {
            lemma_line_in_part(s, from, s.len() as int, p);
            assert(block[p - 1] == s[from + p - 1]);
            if cut < s.len() {
                lemma_host_line_is_not_empty(line_at(s, cut));
            }
            assert(!is_host_line(line_at(s, from + p)));
        }
    } else {
        let rest = blocks_from(s, cut);
        assert(all =~= seq![s.subrange(from, cut)] + rest);
        if k == 0 {
            let block = s.subrange(from, cut);
            assert forall|p: int| follows_line_feed(block, p) implies !is_host_line(
                #[trigger] line_at(block, p),
            ) by {
                lemma_line_in_part(s, from, cut, p);
                assert(block[p - 1] == s[from + p - 1]);
                assert(!is_host_line(line_at(s, from + p)));
            }
        } else {
            assert(all[k] == rest[k - 1]);
            lemma_blocks_are_cut_at_host_lines(s, cut, k - 1);
            if k == 1 {
                lemma_first_block(s, cut);
            }
        }
    }
}

/// The blocks of a configuration text divide it at the lines whose first
/// word is `Host`: there is at least one block; the blocks one after
/// another are the text without the white space around it; every block but
/// the first begins with such a line; and no block holds such a line behind
/// its first line.
pub proof fn law_blocks_divide_the_text(input: Seq<char>)
    ensures
        blocks_of(input).len() >= 1,
        rejoined(blocks_of(input)) == trim(input),
        forall|k: int|
            0 < k < blocks_of(input).len() ==> is_host_line(
                #[trigger] line_at(blocks_of(input)[k], 0),
            ),
        forall|k: int, p: int|
            0 <= k < blocks_of(input).len() && follows_line_feed(blocks_of(input)[k], p)
                ==> !is_host_line(#[trigger] line_at(blocks_of(input)[k], p)),
{
    let body = trim(input);
    lemma_first_block(body, 0);
    lemma_blocks_rejoin(body, 0);
    assert(body.subrange(0, body.len() as int) =~= body);
    assert forall|k: int| 0 < k < blocks_of(input).len() implies is_host_line(
        #[trigger] line_at(blocks_of(input)[k], 0),
    ) by {
        lemma_blocks_are_cut_at_host_lines(body, 0, k);
    }
    assert forall|k: int, p: int|
        0 <= k < blocks_of(input).len() && follows_line_feed(
            blocks_of(input)[k],
            p,
        ) implies !is_host_line(#[trigger] line_at(blocks_of(input)[k], p)) by {
        lemma_blocks_are_cut_at_host_lines(body, 0, k);
    }
}

} // verus!
