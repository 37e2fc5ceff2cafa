//! The event model and the line tokenizer: each line of the utility's
//! standard output is split at spaces and scanned for the two recognized
//! message shapes, `Downloading item <ID>` and
//! `Downloaded item <ID> to "<path>" (<BYTES> bytes)`; every line is also
//! surfaced verbatim.
//!
//! A message that begins like a pattern but fails to complete it — a
//! missing or non-numeric field, a missing `bytes)` terminator, a path
//! without its quotes — yields no structured event; the line is still
//! forwarded verbatim, so nothing is lost or misattributed.

use vstd::prelude::*;
use vstd::string::*;
use crate::digits::{dec_val, parse_usize, parses_to_usize};
use crate::text::{join_spaces, spec_split, spec_trim, split_spaces, str_eq, trim_ws};

verus! {

/// Identifier of the parent application a workshop item belongs to.
#[derive(Debug, Clone, Copy, PartialEq, Eq, Structural)]
pub struct GameId(pub usize);

/// Identifier of a single downloadable workshop item.
#[derive(Debug, Clone, Copy, PartialEq, Eq, Structural)]
pub struct ItemId(pub usize);

/// One requested download: a workshop item within its parent application.
#[derive(Debug, Clone, Copy, PartialEq, Eq, Structural)]
pub struct Item {
    pub game: GameId,
    pub item: ItemId,
}

/// One raw, newline-stripped line of subprocess text, tagged with the
/// stream it arrived on.
#[derive(Debug, PartialEq, Eq)]
pub enum OutputLine {
    /// A line from the standard error stream.
    Error(String),
    /// A line from the standard output stream.
    Normal(String),
}

/// A lifecycle event observed in the subprocess output.
#[derive(Debug, PartialEq, Eq)]
pub enum Event {
    /// A line from stdout or stderr of the process, surfaced verbatim.
    Output(OutputLine),
    /// The item that began downloading.
    Starting(ItemId),
    /// The item that finished downloading, the path it was written to,
    /// and the reported size in bytes.
    Done(ItemId, String, usize),
}

/// Mathematical model of an [`OutputLine`].
pub enum LineModel {
    Normal(Seq<char>),
    Error(Seq<char>),
}

/// Mathematical model of an [`Event`].
pub enum EventModel {
    Output(LineModel),
    Starting(nat),
    Done(nat, Seq<char>, nat),
}

impl View for OutputLine {
    type V = LineModel;

    open spec fn view(&self) -> LineModel {
        match self {
            OutputLine::Normal(s) => LineModel::Normal(s@),
            OutputLine::Error(s) => LineModel::Error(s@),
        }
    }
}

impl View for Event {
    type V = EventModel;

    open spec fn view(&self) -> EventModel {
        match self {
            Event::Output(l) => EventModel::Output(l@),
            Event::Starting(id) => EventModel::Starting(id.0 as nat),
            Event::Done(id, path, bytes) => EventModel::Done(id.0 as nat, path@, *bytes as nat),
        }
    }
}

/// The views of a sequence of owned tokens.
pub open spec fn views_of(tokens: Seq<String>) -> Seq<Seq<char>> {
    tokens.map_values(|t: String| t@)
}

/// The start pattern holds at token `i`: `Downloading item <ID>` with a
/// well-formed `<ID>`.
pub open spec fn start_match(ts: Seq<Seq<char>>, i: int) -> bool {
    &&& 0 <= i
    &&& i + 2 < ts.len()
    &&& spec_trim(ts[i]) == "Downloading"@
    &&& ts[i + 1] == "item"@
    &&& parses_to_usize(spec_trim(ts[i + 2]))
}

/// The item identifier of a start pattern at token `i`.
pub open spec fn start_id(ts: Seq<Seq<char>>, i: int) -> nat {
    dec_val(spec_trim(ts[i + 2]))
}

/// The first index `k >= k0` such that the token after `k` trims to
/// `bytes)`; `-1` when no such index exists.
pub open spec fn bytes_end(ts: Seq<Seq<char>>, k0: int) -> int
    decreases ts.len() - k0,
{
    if k0 < 0 || k0 + 1 >= ts.len() {
        -1
    } else if spec_trim(ts[k0 + 1]) == "bytes)"@ {
        k0
    } else {
        bytes_end(ts, k0 + 1)
    }
}

/// When the terminator is found, its index lies in range and the token
/// after it trims to `bytes)`.
pub proof fn lemma_bytes_end(ts: Seq<Seq<char>>, k0: int)
    requires
        bytes_end(ts, k0) != -1,
    ensures
        k0 <= bytes_end(ts, k0),
        bytes_end(ts, k0) + 1 < ts.len(),
        spec_trim(ts[bytes_end(ts, k0) + 1]) == "bytes)"@,
    decreases ts.len() - k0,
{
    if k0 < 0 || k0 + 1 >= ts.len() {
    } else if spec_trim(ts[k0 + 1]) == "bytes)"@ {
    } else {
        lemma_bytes_end(ts, k0 + 1);
    }
}

/// The terminator search lands on the first index whose following token
/// trims to `bytes)`.
pub proof fn lemma_bytes_end_first(ts: Seq<Seq<char>>, k0: int, k: int)
    requires
        0 <= k0 <= k,
        k + 1 < ts.len(),
        spec_trim(ts[k + 1]) == "bytes)"@,
        forall|q: int| k0 <= q < k ==> spec_trim(#[trigger] ts[q + 1]) != "bytes)"@,
    ensures
        bytes_end(ts, k0) == k,
    decreases k - k0,
{
    if k0 < k {
        lemma_bytes_end_first(ts, k0 + 1, k);
    }
}

/// The token with one leading `(` removed, if it has one.
pub open spec fn strip_paren(s: Seq<char>) -> Seq<char> {
    if s.len() >= 1 && s[0] == '(' {
        s.subrange(1, s.len() as int)
    } else {
        s
    }
}

/// The index of the byte-count token of a done pattern whose item
/// identifier stands at token `p`.
pub open spec fn done_count_idx(ts: Seq<Seq<char>>, p: int) -> int {
    bytes_end(ts, p + 3)
}

/// The accumulated path text of a done pattern, quotes still attached:
/// the tokens between `to` and the byte count, joined by single spaces.
pub open spec fn done_raw_path(ts: Seq<Seq<char>>, p: int) -> Seq<char> {
    join_spaces(ts.subrange(p + 2, done_count_idx(ts, p)))
}

/// The tail of the done pattern holds with the item identifier at token
/// `p`: `<ID> to "<path tokens...>" (<BYTES> bytes)`.
pub open spec fn done_body_match(ts: Seq<Seq<char>>, p: int) -> bool {
    &&& 0 <= p
    &&& p + 1 < ts.len()
    &&& parses_to_usize(spec_trim(ts[p]))
    &&& ts[p + 1] == "to"@
    &&& done_count_idx(ts, p) != -1
    &&& parses_to_usize(strip_paren(ts[done_count_idx(ts, p)]))
    &&& done_raw_path(ts, p).len() >= 2
    &&& done_raw_path(ts, p).first() == '"'
    &&& done_raw_path(ts, p).last() == '"'
}

/// The item identifier of a done pattern whose tail starts at token `p`.
pub open spec fn done_body_id(ts: Seq<Seq<char>>, p: int) -> nat {
    dec_val(spec_trim(ts[p]))
}

/// The destination path of a done pattern, enclosing quotes stripped.
pub open spec fn done_body_path(ts: Seq<Seq<char>>, p: int) -> Seq<char> {
    done_raw_path(ts, p).subrange(1, done_raw_path(ts, p).len() - 1)
}

/// The reported byte count of a done pattern.
pub open spec fn done_body_bytes(ts: Seq<Seq<char>>, p: int) -> nat {
    dec_val(strip_paren(ts[done_count_idx(ts, p)]))
}

/// The token index at which scanning resumes after a done pattern.
pub open spec fn done_body_next(ts: Seq<Seq<char>>, p: int) -> int {
    done_count_idx(ts, p) + 2
}

/// The done pattern holds at token `i`: `Downloaded item` followed by a
/// well-formed tail.
pub open spec fn done_match(ts: Seq<Seq<char>>, i: int) -> bool {
    &&& 0 <= i
    &&& i + 1 < ts.len()
    &&& spec_trim(ts[i]) == "Downloaded"@
    &&& ts[i + 1] == "item"@
    &&& done_body_match(ts, i + 2)
}

/// The structured events produced by scanning the tokens left to right
/// from position `i`. A recognized pattern emits its event and scanning
/// resumes after the tokens the pattern consumed; any other token is
/// stepped over. A malformed pattern emits nothing.
pub open spec fn spec_scan(ts: Seq<Seq<char>>, i: int) -> Seq<EventModel>
    decreases ts.len() - i,
    via spec_scan_dec
{
    if i < 0 || i >= ts.len() {
        Seq::empty()
    } else if start_match(ts, i) {
        seq![EventModel::Starting(start_id(ts, i))] + spec_scan(ts, i + 3)
    } else if done_match(ts, i) {
        seq![
            EventModel::Done(done_body_id(ts, i + 2), done_body_path(ts, i + 2), done_body_bytes(ts, i + 2)),
        ] + spec_scan(ts, done_body_next(ts, i + 2))
    } else {
        spec_scan(ts, i + 1)
    }
}

#[via_fn]
proof fn spec_scan_dec(ts: Seq<Seq<char>>, i: int) {
    if 0 <= i < ts.len() && !start_match(ts, i) && done_match(ts, i) {
        lemma_bytes_end(ts, i + 5);
    }
}

/// All events produced for one line of standard output: the structured
/// events of every recognized pattern, then the verbatim line itself.
pub open spec fn spec_line_events(line: Seq<char>) -> Seq<EventModel> {
    spec_scan(spec_split(line), 0) + seq![EventModel::Output(LineModel::Normal(line))]
}

proof fn lemma_keywords_differ()
    ensures
        "Downloading"@ != "Downloaded"@,
{
    reveal_strlit("Downloading");
    reveal_strlit("Downloaded");
    assert("Downloading"@.len() == 11);
    assert("Downloaded"@.len() == 10);
}

/// Appending one token appends its view.
pub proof fn lemma_views_push(tokens: Seq<String>, t: String)
    ensures
        views_of(tokens.push(t)) == views_of(tokens).push(t@),
{
    assert(views_of(tokens.push(t)) =~= views_of(tokens).push(t@));
}

proof fn lemma_map_push(evs: Seq<Event>, e: Event)
    ensures
        evs.push(e).map_values(|x: Event| x@) == evs.map_values(|x: Event| x@).push(e@),
{
    assert(evs.push(e).map_values(|x: Event| x@) =~= evs.map_values(|x: Event| x@).push(e@));
}

/// Find the first `k >= start` such that the token after `k` trims to
/// `bytes)`.
fn find_bytes_end(tokens: &Vec<String>, start: usize) -> (r: Option<usize>)
    requires
        start <= tokens@.len(),
    ensures
        match r {
            Some(k) => bytes_end(views_of(tokens@), start as int) == k as int && start <= k && k
                + 1 < tokens@.len(),
            None => bytes_end(views_of(tokens@), start as int) == -1,
        },
{
    let ghost ts = views_of(tokens@);
    let n = tokens.len();
    let mut k = start;
    if k >= n {
        return None;
    }
    while k + 1 < n
        invariant
            start <= k < n,
            n == ts.len(),
            bytes_end(ts, start as int) == bytes_end(ts, k as int),
        decreases n - k,
    {
        let t = trim_ws(tokens[k + 1].as_str());
        proof {
            assert(ts[k + 1] == tokens@[k + 1]@);
        }
        if str_eq(t.as_str(), "bytes)") {
            return Some(k);
        }
        k = k + 1;
    }
    None
}

fn strip_paren_exec(s: &str) -> (r: String)
    ensures
        r@ == strip_paren(s@),
{
    let n = s.unicode_len();
    if n >= 1 && s.get_char(0) == '(' {
        String::from_str(s.substring_char(1, n))
    } else {
        String::from_str(s)
    }
}

/// Parse the tail of a done pattern whose item identifier stands at token
/// `p`; on success return the identifier, the unquoted path, the byte
/// count, and the token index at which scanning resumes.
fn parse_done_tail(tokens: &Vec<String>, p: usize) -> (r: Option<(usize, String, usize, usize)>)
    requires
        p <= tokens@.len(),
    ensures
        r is Some <==> done_body_match(views_of(tokens@), p as int),
        r is Some ==> {
            &&& (r->0).0 == done_body_id(views_of(tokens@), p as int)
            &&& (r->0).1@ == done_body_path(views_of(tokens@), p as int)
            &&& (r->0).2 == done_body_bytes(views_of(tokens@), p as int)
            &&& (r->0).3 == done_body_next(views_of(tokens@), p as int)
            &&& p + 5 <= (r->0).3 <= tokens@.len()
        },
{
    let ghost ts = views_of(tokens@);
    let n = tokens.len();
    if p >= n || p + 1 >= n {
        return None;
    }
    proof {
        assert(ts[p as int] == tokens@[p as int]@);
        assert(ts[p + 1] == tokens@[p + 1]@);
    }
    let idt = trim_ws(tokens[p].as_str());
    let id = match parse_usize(idt.as_str()) {
        Some(v) => v,
        None => {
            return None;
        },
    };
    if !str_eq(tokens[p + 1].as_str(), "to") {
        return None;
    }
    if n - p < 5 {
        proof {
            assert(bytes_end(ts, p + 3) == -1);
        }
        return None;
    }
    let k = match find_bytes_end(tokens, p + 3) {
        Some(k) => k,
        None => {
            return None;
        },
    };
    proof {
        assert(ts[k as int] == tokens@[k as int]@);
    }
    let count_tok = strip_paren_exec(tokens[k].as_str());
    let bytes = match parse_usize(count_tok.as_str()) {
        Some(v) => v,
        None => {
            return None;
        },
    };
    let mut path = String::new();
    proof {
        assert(path@ =~= join_spaces(ts.subrange(p + 2, p + 2)));
    }
    let mut j = p + 2;
    while j < k
        invariant
            p + 2 <= j <= k,
            k + 1 < n,
            n == ts.len(),
            path@ == join_spaces(ts.subrange(p + 2, j as int)),
        decreases k - j,
    {
        if j > p + 2 {
            path.append(" ");
            proof {
                reveal_strlit(" ");
            }
        }
        path.append(tokens[j].as_str());
        proof {
            assert(ts[j as int] == tokens@[j as int]@);
            let s1 = ts.subrange(p + 2, j + 1);
            assert(s1.drop_last() =~= ts.subrange(p + 2, j as int));
            assert(s1.last() == ts[j as int]);
            if j > p + 2 {
                reveal_strlit(" ");
                assert(" "@ =~= seq![' ']);
            }
        }
        j = j + 1;
    }
    let plen = path.as_str().unicode_len();
    if plen < 2 {
        return None;
    }
    if path.as_str().get_char(0) != '"' || path.as_str().get_char(plen - 1) != '"' {
        return None;
    }
    let unquoted = String::from_str(path.as_str().substring_char(1, plen - 1));
    proof {
        assert(done_body_match(ts, p as int));
    }
    Some((id, unquoted, bytes, k + 2))
}

/// Scan one line of standard output and return its events: one structured
/// event per recognized pattern occurrence, in scan order, followed by the
/// verbatim `Output` event for the line itself.
pub fn extract_events(line: &str) -> (events: Vec<Event>)
    ensures
        events@.map_values(|e: Event| e@) == spec_line_events(line@),
{
    let tokens = split_spaces(line);
    let ghost ts = views_of(tokens@);
    let n = tokens.len();
    let mut events: Vec<Event> = Vec::new();
    proof {
        assert(events@.map_values(|e: Event| e@) =~= Seq::<EventModel>::empty());
        assert(Seq::<EventModel>::empty() + spec_scan(ts, 0) =~= spec_scan(ts, 0));
    }
    let mut i: usize = 0;
    while i < n
        invariant
            i <= n,
            n == ts.len(),
            ts == views_of(tokens@),
            spec_scan(ts, 0) == events@.map_values(|e: Event| e@) + spec_scan(ts, i as int),
        decreases n - i,
    {
        proof {
            assert(ts[i as int] == tokens@[i as int]@);
        }
        let w = trim_ws(tokens[i].as_str());
        if str_eq(w.as_str(), "Downloading") && i + 1 < n && str_eq(tokens[i + 1].as_str(), "item") {
            proof {
                assert(ts[i + 1] == tokens@[i + 1]@);
            }
            if i + 2 < n {
                proof {
                    assert(ts[i + 2] == tokens@[i + 2]@);
                }
                let idt = trim_ws(tokens[i + 2].as_str());
                match parse_usize(idt.as_str()) {
                    Some(id) => {
                        let ev = Event::Starting(ItemId(id));
                        proof {
                            assert(start_match(ts, i as int));
                            assert(ev@ == EventModel::Starting(start_id(ts, i as int)));
                            lemma_map_push(events@, ev);
                            assert(events@.map_values(|e: Event| e@).push(ev@) + spec_scan(
                                ts,
                                i + 3,
                            ) =~= events@.map_values(|e: Event| e@) + (seq![ev@] + spec_scan(
                                ts,
                                i + 3,
                            )));
                        }
                        events.push(ev);
                        i = i + 3;
                    },
                    None => {
                        proof {
                            lemma_keywords_differ();
                            assert(!start_match(ts, i as int));
                            assert(!done_match(ts, i as int));
                        }
                        i = i + 1;
                    },
                }
            } else {
                proof {
                    lemma_keywords_differ();
                    assert(!start_match(ts, i as int));
                    assert(!done_match(ts, i as int));
                }
                i = i + 1;
            }
        } else if str_eq(w.as_str(), "Downloaded") && i + 1 < n && str_eq(
            tokens[i + 1].as_str(),
            "item",
        ) {
            proof {
                assert(ts[i + 1] == tokens@[i + 1]@);
                lemma_keywords_differ();
            }
            match parse_done_tail(&tokens, i + 2) {
                Some((id, path, bytes, next)) => {
                    let ev = Event::Done(ItemId(id), path, bytes);
                    proof {
                        assert(done_match(ts, i as int));
                        assert(!start_match(ts, i as int));
                        assert(ev@ == EventModel::Done(
                            done_body_id(ts, i + 2),
                            done_body_path(ts, i + 2),
                            done_body_bytes(ts, i + 2),
                        ));
                        lemma_map_push(events@, ev);
                        assert(events@.map_values(|e: Event| e@).push(ev@) + spec_scan(
                            ts,
                            next as int,
                        ) =~= events@.map_values(|e: Event| e@) + (seq![ev@] + spec_scan(
                            ts,
                            next as int,
                        )));
                    }
                    events.push(ev);
                    i = next;
                },
                None => {
                    proof {
                        assert(!start_match(ts, i as int));
                        assert(!done_match(ts, i as int));
                    }
                    i = i + 1;
                },
            }
        } else {
            proof {
                assert(!start_match(ts, i as int));
                assert(!done_match(ts, i as int));
            }
            i = i + 1;
        }
    }
    let out = Event::Output(OutputLine::Normal(String::from_str(line)));
    proof {
        assert(spec_scan(ts, n as int) =~= Seq::<EventModel>::empty());
        assert(events@.map_values(|e: Event| e@) + spec_scan(ts, n as int) =~= events@.map_values(
            |e: Event| e@,
        ));
        lemma_map_push(events@, out);
        assert(out@ == EventModel::Output(LineModel::Normal(line@)));
        assert(events@.map_values(|e: Event| e@).push(out@) =~= events@.map_values(|e: Event| e@)
            + seq![out@]);
    }
    events.push(out);
    events
}

proof fn lemma_scan_without_keywords(ts: Seq<Seq<char>>, i: int)
    requires
        forall|q: int|
            0 <= q < ts.len() ==> #[trigger] spec_trim(ts[q]) != "Downloading"@ && spec_trim(ts[q])
                != "Downloaded"@,
    ensures
        spec_scan(ts, i) == Seq::<EventModel>::empty(),
    decreases ts.len() - i,
{
    if 0 <= i < ts.len() {
        assert(spec_trim(ts[i]) != "Downloading"@);
        assert(!start_match(ts, i));
        assert(!done_match(ts, i));
        lemma_scan_without_keywords(ts, i + 1);
    }
}

/// A line none of whose tokens trims to a pattern keyword produces only
/// its verbatim `Output` event: no `Starting`, no `Done`.
pub proof fn lemma_unrecognized_line(line: Seq<char>)
    requires
        forall|q: int|
            0 <= q < spec_split(line).len() ==> #[trigger] spec_trim(spec_split(line)[q])
                != "Downloading"@ && spec_trim(spec_split(line)[q]) != "Downloaded"@,
    ensures
        spec_line_events(line) == seq![EventModel::Output(LineModel::Normal(line))],
{
    lemma_scan_without_keywords(spec_split(line), 0);
    assert(spec_line_events(line) =~= seq![EventModel::Output(LineModel::Normal(line))]);
}

/// Wrap one line of the standard error stream: every such line becomes
/// exactly one verbatim `Output` event and never a structured event.
pub fn error_line_event(line: String) -> (ev: Event)
    ensures
        ev@ == EventModel::Output(LineModel::Error(line@)),
{
    Event::Output(OutputLine::Error(line))
}

} // verus!
