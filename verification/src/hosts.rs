//! Host records, and reading them from the text of an SSH client
//! configuration.
//!
//! A line is read by its words, the runs of characters between white space.
//! A line whose first word is `Host` begins a block and gives the alias; a
//! line whose first word is `HostName` gives the hostname; each takes it
//! from the second word of the line. Lines that begin with any other word
//! are passed over. A block ends where the next one begins, and a block
//! that lacks the alias or the hostname gives no record.

use crate::text::{
    chars_of, find_char, find_from, first_two_words, first_word, same_chars, second_word,
    slice_of, string_of, trim, trim_bounds,
};
use vstd::prelude::*;

verus! {

/// One reachable SSH destination.
///
/// `score` is the similarity of the record to the query of the latest
/// ranking pass, as the bit pattern of a double; it means nothing outside
/// that pass.
#[derive(Debug, PartialEq)]
pub struct List {
    pub score: u64,
    pub hostname: String,
    pub alias: String,
    pub display_name: String,
}

/// What a host record holds, as plain values.
pub struct ListView {
    pub score: u64,
    pub hostname: Seq<char>,
    pub alias: Seq<char>,
    pub display_name: Seq<char>,
}

impl View for List {
    type V = ListView;

    open spec fn view(&self) -> ListView {
        ListView {
            score: self.score,
            hostname: self.hostname@,
            alias: self.alias@,
            display_name: self.display_name@,
        }
    }
}

impl Clone for List {
    fn clone(&self) -> (r: Self)
        ensures
            r@ == self@,
    {
        List {
            score: self.score,
            hostname: self.hostname.clone(),
            alias: self.alias.clone(),
            display_name: self.display_name.clone(),
        }
    }
}

impl Default for List {
    fn default() -> (r: Self)
        ensures
            r@ == (ListView { score: 0, hostname: seq![], alias: seq![], display_name: seq![] }),
    {
        List {
            score: 0,
            hostname: String::new(),
            alias: String::new(),
            display_name: String::new(),
        }
    }
}

impl List {
    /// The text under which the record is named: its alias.
    pub fn to_string(&self) -> (text: String)
        ensures
            text@ == self@.alias,
    {
        self.alias.clone()
    }
}

/// The records of `v`, each by its view.
pub open spec fn views(v: Seq<List>) -> Seq<ListView> {
    v.map_values(|r: List| r@)
}

/// The texts of `v`, each by its characters.
pub open spec fn texts(v: Seq<&str>) -> Seq<Seq<char>> {
    v.map_values(|s: &str| s@)
}

/// The word with which a hostname line begins.
pub open spec fn hostname_keyword() -> Seq<char> {
    seq!['H', 'o', 's', 't', 'N', 'a', 'm', 'e']
}

/// The word with which a block begins.
pub open spec fn host_keyword() -> Seq<char> {
    seq!['H', 'o', 's', 't']
}

/// Whether `line` begins a block: its first word is `Host`.
pub open spec fn is_host_line(line: Seq<char>) -> bool {
    first_word(line) == host_keyword()
}

/// Whether `line` names the hostname: its first word is `HostName`.
pub open spec fn is_hostname_line(line: Seq<char>) -> bool {
    first_word(line) == hostname_keyword()
}

/// The line of `s` that begins at position `from`: what stands from there
/// up to the next line feed, or the end.
pub open spec fn line_at(s: Seq<char>, from: int) -> Seq<char> {
    s.subrange(from, find_from(s, '\n', from))
}

/// The position at which the first line begins that follows the line at
/// `from` and begins a block, or the length of `s` where no such line
/// follows.
pub open spec fn next_host_line(s: Seq<char>, from: int) -> int
    decreases s.len() - from,
{
    let end = find_from(s, '\n', from);
    if from > end || end >= s.len() {
        s.len() as int
    } else if is_host_line(line_at(s, end + 1)) {
        end + 1
    } else {
        next_host_line(s, end + 1)
    }
}

/// The blocks of `s` from position `from` on, where a line begins at
/// `from`. A block ends where the next line begins whose first word is
/// `Host`; the last block ends where `s` ends.
pub open spec fn blocks_from(s: Seq<char>, from: int) -> Seq<Seq<char>>
    decreases s.len() - from,
{
    let cut = next_host_line(s, from);
    if from >= cut || cut >= s.len() {
        seq![s.subrange(from, s.len() as int)]
    } else {
        seq![s.subrange(from, cut)] + blocks_from(s, cut)
    }
}

/// The blocks of a configuration text: those of the text without the white
/// space around it.
pub open spec fn blocks_of(input: Seq<char>) -> Seq<Seq<char>> {
    blocks_from(trim(input), 0)
}

/// Whether `hostname` is a dotted numeric address: every character of it
/// other than `.` is a digit.
pub open spec fn is_dotted_numeric(hostname: Seq<char>) -> bool {
    forall|i: int|
        0 <= i < hostname.len() ==> #[trigger] hostname[i] == '.' || '0' <= hostname[i] <= '9'
}

/// The label under which a host is shown and matched: a dotted numeric
/// address as it is, any other hostname up to its first `.`.
pub open spec fn display_name_of(hostname: Seq<char>) -> Seq<char> {
    if is_dotted_numeric(hostname) {
        hostname
    } else {
        hostname.take(find_from(hostname, '.', 0))
    }
}

/// A record with nothing in it.
pub open spec fn empty_record() -> ListView {
    ListView { score: 0, hostname: seq![], alias: seq![], display_name: seq![] }
}

/// The record `r` after `line` has been read: a hostname line gives the
/// hostname and with it the display name, a line that begins a block gives
/// the alias, and any other line leaves the record as it is.
pub open spec fn read_line(r: ListView, line: Seq<char>) -> ListView {
    if is_hostname_line(line) {
        ListView {
            hostname: second_word(line),
            display_name: display_name_of(second_word(line)),
            ..r
        }
    } else if is_host_line(line) {
        ListView { alias: second_word(line), ..r }
    } else {
        r
    }
}

/// The record `r` after the lines of `block` from position `from` on have
/// been read, one after another.
pub open spec fn read_lines(block: Seq<char>, from: int, r: ListView) -> ListView
    decreases block.len() - from,
{
    let end = find_from(block, '\n', from);
    let next = read_line(r, block.subrange(from, end));
    if from > end || end >= block.len() {
        next
    } else {
        read_lines(block, end + 1, next)
    }
}

/// The record that `block` describes.
pub open spec fn record_of(block: Seq<char>) -> ListView {
    read_lines(block, 0, empty_record())
}

/// Whether `r` has both an alias and a hostname.
pub open spec fn is_complete(r: ListView) -> bool {
    r.alias.len() > 0 && r.hostname.len() > 0
}

/// The records that `blocks` describe: one for each block that gives both
/// an alias and a hostname, in the order of the blocks.
pub open spec fn records_of(blocks: Seq<Seq<char>>) -> Seq<ListView> {
    blocks.map_values(|b: Seq<char>| record_of(b)).filter(|r: ListView| is_complete(r))
}

/// The records that a configuration text describes.
pub open spec fn parsed(input: Seq<char>) -> Seq<ListView> {
    records_of(blocks_of(input))
}

/// The characters of the word with which a hostname line begins.
fn hostname_keyword_chars() -> (m: Vec<char>)
    ensures
        m@ == hostname_keyword(),
{
    let mut m: Vec<char> = Vec::new();
    m.push('H');
    m.push('o');
    m.push('s');
    m.push('t');
    m.push('N');
    m.push('a');
    m.push('m');
    m.push('e');
    m
}

/// The characters of the word with which a block begins.
fn host_keyword_chars() -> (m: Vec<char>)
    ensures
        m@ == host_keyword(),
{
    let mut m: Vec<char> = Vec::new();
    m.push('H');
    m.push('o');
    m.push('s');
    m.push('t');
    m
}

/// The position at which the first line begins that follows the line at
/// `from` and begins a block, or the length of `v`.
fn find_host_line(v: &Vec<char>, from: usize) -> (cut: usize)
    requires
        from <= v.len(),
    ensures
        cut == next_host_line(v@, from as int),
        from <= cut <= v.len(),
        cut < v.len() ==> from < cut,
{
    let keyword = host_keyword_chars();
    let mut at: usize = from;
    loop
        invariant
            from <= at <= v.len(),
            keyword@ == host_keyword(),
            next_host_line(v@, at as int) == next_host_line(v@, from as int),
        decreases v.len() - at,
    {
        let end = find_char(v, '\n', at);
        if end >= v.len() {
            return v.len();
        }
        let line = slice_of(v, end + 1, find_char(v, '\n', end + 1));
        let (first, _) = first_two_words(&line);
        if same_chars(&first, &keyword) {
            return end + 1;
        }
        at = end + 1;
    }
}

/// The label under which a host named `hostname` is shown.
pub fn display_name(hostname: &Vec<char>) -> (name: Vec<char>)
    ensures
        name@ == display_name_of(hostname@),
{
    let mut i: usize = 0;
    while i < hostname.len() && (hostname[i] == '.' || (hostname[i] >= '0' && hostname[i] <= '9'))
        invariant
            i <= hostname.len(),
            forall|k: int|
                0 <= k < i ==> #[trigger] hostname@[k] == '.' || '0' <= hostname@[k] <= '9',
        decreases hostname.len() - i,
    {
        i += 1;
    }
    if i == hostname.len() {
        slice_of(hostname, 0, hostname.len())
    } else {
        let dot = find_char(hostname, '.', 0);
        slice_of(hostname, 0, dot)
    }
}

/// Reads one line into the record held in `hostname`, `alias` and `shown`.
fn take_line(
    line: &Vec<char>,
    hostname: &mut Vec<char>,
    alias: &mut Vec<char>,
    shown: &mut Vec<char>,
)
    ensures
        (ListView {
            score: 0,
            hostname: final(hostname)@,
            alias: final(alias)@,
            display_name: final(shown)@,
        }) == read_line(
            ListView {
                score: 0,
                hostname: old(hostname)@,
                alias: old(alias)@,
                display_name: old(shown)@,
            },
            line@,
        ),
{
    let (key, value) = first_two_words(line);
    if same_chars(&key, &hostname_keyword_chars()) {
        *shown = display_name(&value);
        *hostname = value;
    } else if same_chars(&key, &host_keyword_chars()) {
        *alias = value;
    }
}

/// The configuration reader.
pub struct Server {}

impl Server {
    /// Cuts a configuration text into its blocks.
    ///
    /// White space around the text is passed over. What is left is cut
    /// before every line but the first whose first word is `Host`, indented
    /// or not, so that each such line begins a block. Every text has at
    /// least one block, and the blocks one after another are the text
    /// without the white space around it.
    pub fn parse_list<'a>(input: &'a str) -> (list: Vec<&'a str>)
        ensures
            texts(list@) == blocks_of(input@),
    {
        let all = chars_of(input);
        let (lead, tail) = trim_bounds(&all);
        let body = input.substring_char(lead, tail);
        let chars = slice_of(&all, lead, tail);
        let mut list: Vec<&'a str> = Vec::new();
        let mut from: usize = 0;
        loop
            invariant
                from <= chars.len(),
                chars@ == body@,
                chars@ == trim(input@),
                texts(list@) + blocks_from(chars@, from as int) == blocks_from(chars@, 0),
            decreases chars.len() - from,
        {
            let cut = find_host_line(&chars, from);
            if cut >= chars.len() {
                list.push(body.substring_char(from, chars.len()));
                return list;
            }
            list.push(body.substring_char(from, cut));
            from = cut;
        }
    }

    /// Reads the record that each block describes, and keeps those that
    /// have both an alias and a hostname.
    ///
    /// Within a block the alias is the second word of the line whose first
    /// word is `Host`, and the hostname the second word of the line whose
    /// first word is `HostName`; where a block has several such lines, the
    /// last one counts. The display name follows from the hostname.
    pub fn hash_list(list: Vec<&str>) -> (servers: Vec<List>)
        ensures
            views(servers@) == records_of(texts(list@)),
            forall|i: int|
                0 <= i < servers@.len() ==> (#[trigger] servers@[i])@.alias.len() > 0
                    && servers@[i]@.hostname.len() > 0,
    {
        let mut servers: Vec<List> = Vec::new();
        let mut i: usize = 0;
        proof {
            reveal(Seq::filter);
            assert(texts(list@).take(0) =~= Seq::<Seq<char>>::empty());
        }
        while i < list.len()
            invariant
                i <= list.len(),
                views(servers@) == records_of(texts(list@).take(i as int)),
                forall|k: int|
                    0 <= k < servers@.len() ==> (#[trigger] servers@[k])@.alias.len() > 0
                        && servers@[k]@.hostname.len() > 0,
            decreases list.len() - i,
        {
            let block = chars_of(list[i]);
            let mut hostname: Vec<char> = Vec::new();
            let mut alias: Vec<char> = Vec::new();
            let mut shown: Vec<char> = Vec::new();
            let mut from: usize = 0;
            loop
                invariant
                    from <= block.len(),
                    read_lines(
                        block@,
                        from as int,
                        ListView {
                            score: 0,
                            hostname: hostname@,
                            alias: alias@,
                            display_name: shown@,
                        },
                    ) == record_of(block@),
                ensures
                    (ListView {
                        score: 0,
                        hostname: hostname@,
                        alias: alias@,
                        display_name: shown@,
                    }) == record_of(block@),
                decreases block.len() - from,
            {
                let end = find_char(&block, '\n', from);
                let line = slice_of(&block, from, end);
                take_line(&line, &mut hostname, &mut alias, &mut shown);
                if end >= block.len() {
                    break;
                }
                from = end + 1;
            }
            let ghost before = texts(list@).take(i as int);
            let ghost record = record_of(block@);
            proof {
                assert(texts(list@).take(i + 1) =~= before.push(block@));
                assert(before.push(block@).map_values(|b: Seq<char>| record_of(b)) =~= before.map_values(
                    |b: Seq<char>| record_of(b),
                ).push(record));
                before.map_values(|b: Seq<char>| record_of(b)).lemma_filter_push(
                    record,
                    |r: ListView| is_complete(r),
                );
            }
            if hostname.len() > 0 && alias.len() > 0 {
                let server = List {
                    score: 0,
                    hostname: string_of(&hostname),
                    alias: string_of(&alias),
                    display_name: string_of(&shown),
                };
                servers.push(server);
            }
            i += 1;
        }
        proof {
            assert(texts(list@).take(list@.len() as int) =~= texts(list@));
        }
        servers
    }

    /// Reads the records that a configuration text describes.
    ///
    /// Every text is read: one that describes no host gives no record.
    /// Every record given has an alias and a hostname.
    pub fn parse(input: &str) -> (servers: Vec<List>)
        ensures
            views(servers@) == parsed(input@),
            forall|i: int|
                0 <= i < servers@.len() ==> (#[trigger] servers@[i])@.alias.len() > 0
                    && servers@[i]@.hostname.len() > 0,
    {
        Server::hash_list(Server::parse_list(input))
    }
}

} // verus!
