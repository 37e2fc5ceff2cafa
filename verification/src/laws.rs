//! Laws tying the extractor to whole transcripts: a synthetic standard
//! output that announces one start and one done message per requested
//! item yields exactly the requested identifiers, both among the
//! `Starting` events and among the `Done` events.

use vstd::prelude::*;
use crate::digits::{dec_val, lemma_decimal_digits, lemma_digits_not_ws, parses_to_usize, spec_decimal};
use crate::events::{
    bytes_end, done_body_match, done_match, done_raw_path, lemma_bytes_end_first,
    spec_line_events, spec_scan, start_match, EventModel, Item, LineModel,
};
use crate::text::{
    is_ws, lemma_join_split, lemma_split_at_space, lemma_split_concat, lemma_split_no_space,
    lemma_split_nonempty, lemma_trim_of_clean, spec_split, spec_trim,
};

verus! {

/// The stdout line announcing that item `id` begins downloading.
pub open spec fn start_line(id: nat) -> Seq<char> {
    "Downloading"@ + seq![' '] + "item"@ + seq![' '] + spec_decimal(id)
}

/// The stdout line announcing that item `id` was written to `path`
/// with a reported size of `bytes` bytes.
pub open spec fn done_line(id: nat, path: Seq<char>, bytes: nat) -> Seq<char> {
    "Downloaded"@ + seq![' '] + "item"@ + seq![' '] + spec_decimal(id) + seq![' '] + "to"@
        + seq![' '] + (seq!['"'] + path + seq!['"']) + seq![' '] + (seq!['('] + spec_decimal(
        bytes,
    )) + seq![' '] + "bytes)"@
}

proof fn lemma_literals_clean()
    ensures
        forall|j: int| 0 <= j < "Downloading"@.len() ==> !is_ws(#[trigger] "Downloading"@[j]),
        forall|j: int| 0 <= j < "Downloaded"@.len() ==> !is_ws(#[trigger] "Downloaded"@[j]),
        forall|j: int| 0 <= j < "item"@.len() ==> !is_ws(#[trigger] "item"@[j]),
        forall|j: int| 0 <= j < "to"@.len() ==> !is_ws(#[trigger] "to"@[j]),
        forall|j: int| 0 <= j < "bytes)"@.len() ==> !is_ws(#[trigger] "bytes)"@[j]),
{
    reveal_strlit("Downloading");
    reveal_strlit("Downloaded");
    reveal_strlit("item");
    reveal_strlit("to");
    reveal_strlit("bytes)");
}

proof fn lemma_start_line_split(id: nat)
    ensures
        spec_split(start_line(id)) == seq!["Downloading"@, "item"@, spec_decimal(id)],
{
    lemma_literals_clean();
    lemma_decimal_digits(id);
    lemma_digits_not_ws(spec_decimal(id));
    let rest1 = "item"@ + seq![' '] + spec_decimal(id);
    assert(start_line(id) =~= "Downloading"@ + seq![' '] + rest1);
    lemma_split_at_space("Downloading"@, rest1);
    lemma_split_at_space("item"@, spec_decimal(id));
    lemma_split_no_space(spec_decimal(id));
    assert(spec_split(start_line(id)) =~= seq!["Downloading"@, "item"@, spec_decimal(id)]);
}

/// A start line produces exactly its `Starting` event and then the
/// verbatim line.
pub proof fn lemma_start_line_events(id: nat)
    requires
        id <= usize::MAX,
    ensures
        spec_line_events(start_line(id)) == seq![
            EventModel::Starting(id),
            EventModel::Output(LineModel::Normal(start_line(id))),
        ],
{
    lemma_start_line_split(id);
    let ts = spec_split(start_line(id));
    lemma_literals_clean();
    lemma_decimal_digits(id);
    lemma_digits_not_ws(spec_decimal(id));
    lemma_trim_of_clean("Downloading"@);
    lemma_trim_of_clean(spec_decimal(id));
    assert(spec_trim(ts[0]) == "Downloading"@);
    assert(spec_trim(ts[2]) == spec_decimal(id));
    assert(parses_to_usize(spec_trim(ts[2])));
    assert(start_match(ts, 0));
    assert(spec_scan(ts, 3) =~= Seq::<EventModel>::empty());
    assert(spec_scan(ts, 0) =~= seq![EventModel::Starting(id)]);
    assert(spec_line_events(start_line(id)) =~= seq![
        EventModel::Starting(id),
        EventModel::Output(LineModel::Normal(start_line(id))),
    ]);
}

/// A done line produces exactly its `Done` event — identifier, unquoted
/// path (embedded spaces preserved), byte count — and then the verbatim
/// line. The path may contain spaces; the one proviso is that no token
/// of its quoted text trims to the terminator word `bytes)`, which would
/// end the pattern early.
pub proof fn lemma_done_line_events(id: nat, path: Seq<char>, bytes: nat)
    requires
        id <= usize::MAX,
        bytes <= usize::MAX,
        forall|q: int|
            0 <= q < spec_split(seq!['"'] + path + seq!['"']).len() ==> spec_trim(
                #[trigger] spec_split(seq!['"'] + path + seq!['"'])[q],
            ) != "bytes)"@,
    ensures
        spec_line_events(done_line(id, path, bytes)) == seq![
            EventModel::Done(id, path, bytes),
            EventModel::Output(LineModel::Normal(done_line(id, path, bytes))),
        ],
{
    let quoted = seq!['"'] + path + seq!['"'];
    let count = seq!['('] + spec_decimal(bytes);
    let ptoks = spec_split(quoted);
    let m = ptoks.len() as int;
    lemma_split_nonempty(quoted);
    lemma_literals_clean();
    lemma_decimal_digits(id);
    lemma_digits_not_ws(spec_decimal(id));
    lemma_decimal_digits(bytes);
    lemma_digits_not_ws(spec_decimal(bytes));
    assert(forall|j: int| 0 <= j < count.len() ==> !is_ws(#[trigger] count[j]));

    let r5 = "bytes)"@;
    let r4 = count + seq![' '] + r5;
    let r3 = quoted + seq![' '] + r4;
    let r2 = "to"@ + seq![' '] + r3;
    let r1 = spec_decimal(id) + seq![' '] + r2;
    let r0 = "item"@ + seq![' '] + r1;
    assert(done_line(id, path, bytes) =~= "Downloaded"@ + seq![' '] + r0);
    lemma_split_at_space("Downloaded"@, r0);
    lemma_split_at_space("item"@, r1);
    lemma_split_at_space(spec_decimal(id), r2);
    lemma_split_at_space("to"@, r3);
    lemma_split_concat(quoted, r4);
    lemma_split_at_space(count, r5);
    lemma_split_no_space(r5);

    let ts = spec_split(done_line(id, path, bytes));
    assert(ts =~= seq!["Downloaded"@, "item"@, spec_decimal(id), "to"@] + ptoks + seq![
        count,
        r5,
    ]);
    assert(ts.len() == m + 6);
    assert(ts[0] == "Downloaded"@ && ts[1] == "item"@ && ts[2] == spec_decimal(id) && ts[3]
        == "to"@);
    assert(forall|q: int| 0 <= q < m ==> ts[4 + q] == ptoks[q]);
    assert(ts[4 + m] == count && ts[5 + m] == r5);

    lemma_trim_of_clean("Downloaded"@);
    lemma_trim_of_clean("Downloading"@);
    lemma_trim_of_clean(spec_decimal(id));
    lemma_trim_of_clean("bytes)"@);
    lemma_trim_of_clean(count);
    reveal_strlit("bytes)");

    assert forall|q: int| 5 <= q < 4 + m implies spec_trim(#[trigger] ts[q + 1]) != "bytes)"@ by {
        if q + 1 <= 3 + m {
            assert(ts[q + 1] == ptoks[q - 3]);
        } else {
            assert(ts[q + 1] == count);
            assert(count[0] == '(' && "bytes)"@[0] == 'b');
        }
    };
    assert(spec_trim(ts[5 + m]) == "bytes)"@);
    lemma_bytes_end_first(ts, 5, 4 + m);
    assert(bytes_end(ts, 5) == 4 + m);

    assert(ts.subrange(4, 4 + m) =~= ptoks);
    lemma_join_split(quoted);
    assert(done_raw_path(ts, 2) == quoted);
    assert(quoted.len() >= 2 && quoted.first() == '"' && quoted.last() == '"');
    assert(crate::events::strip_paren(count) =~= spec_decimal(bytes));
    assert(spec_trim(ts[2]) == spec_decimal(id));
    assert(parses_to_usize(spec_trim(ts[2])));
    assert(done_body_match(ts, 2));
    assert(done_match(ts, 0));
    reveal_strlit("Downloading");
    reveal_strlit("Downloaded");
    assert("Downloading"@.len() == 11 && "Downloaded"@.len() == 10);
    assert(!start_match(ts, 0));
    assert(crate::events::done_body_path(ts, 2) =~= path);
    assert(dec_val(crate::events::strip_paren(ts[4 + m])) == bytes);
    assert(crate::events::done_body_next(ts, 2) == 6 + m);
    assert(spec_scan(ts, 6 + m) =~= Seq::<EventModel>::empty());
    assert(spec_scan(ts, 0) =~= seq![EventModel::Done(id, path, bytes)]);
    assert(spec_line_events(done_line(id, path, bytes)) =~= seq![
        EventModel::Done(id, path, bytes),
        EventModel::Output(LineModel::Normal(done_line(id, path, bytes))),
    ]);
}

/// For a whitespace-free path the proviso of
/// [`lemma_done_line_events`] holds of itself: the quoted text is a
/// single token, and it cannot trim to the terminator word.
proof fn lemma_clean_path_proviso(path: Seq<char>)
    requires
        forall|j: int| 0 <= j < path.len() ==> !is_ws(#[trigger] path[j]),
    ensures
        forall|q: int|
            0 <= q < spec_split(seq!['"'] + path + seq!['"']).len() ==> spec_trim(
                #[trigger] spec_split(seq!['"'] + path + seq!['"'])[q],
            ) != "bytes)"@,
{
    let quoted = seq!['"'] + path + seq!['"'];
    assert(forall|j: int| 0 <= j < quoted.len() ==> !is_ws(#[trigger] quoted[j]));
    lemma_split_no_space(quoted);
    assert(spec_split(quoted) =~= seq![quoted]);
    lemma_trim_of_clean(quoted);
    reveal_strlit("bytes)");
    assert(quoted[0] == '"' && "bytes)"@[0] == 'b');
    assert(forall|q: int| 0 <= q < spec_split(quoted).len() ==> spec_split(quoted)[q] == quoted);
}

/// The events of a whole standard-output transcript, line by line.
pub open spec fn transcript_events(lines: Seq<Seq<char>>) -> Seq<EventModel>
    decreases lines.len(),
{
    if lines.len() == 0 {
        Seq::empty()
    } else {
        transcript_events(lines.drop_last()) + spec_line_events(lines.last())
    }
}

/// One start line and one done line for every identifier, in order.
pub open spec fn pair_transcript(ids: Seq<nat>, path: Seq<char>, bytes: nat) -> Seq<Seq<char>>
    decreases ids.len(),
{
    if ids.len() == 0 {
        Seq::empty()
    } else {
        pair_transcript(ids.drop_last(), path, bytes) + seq![
            start_line(ids.last()),
            done_line(ids.last(), path, bytes),
        ]
    }
}

/// The identifiers announced as starting among `evs`.
pub open spec fn starting_ids(evs: Seq<EventModel>) -> Set<nat> {
    Set::new(
        |id: nat|
            exists|q: int| 0 <= q < evs.len() && #[trigger] evs[q] == EventModel::Starting(id),
    )
}

/// The identifiers announced as done among `evs`.
pub open spec fn done_ids(evs: Seq<EventModel>) -> Set<nat> {
    Set::new(
        |id: nat|
            exists|q: int|
                0 <= q < evs.len() && (#[trigger] evs[q]) is Done && evs[q]->Done_0 == id,
    )
}

proof fn lemma_ids_concat(a: Seq<EventModel>, b: Seq<EventModel>)
    ensures
        starting_ids(a + b) == starting_ids(a).union(starting_ids(b)),
        done_ids(a + b) == done_ids(a).union(done_ids(b)),
{
    assert forall|id: nat| #[trigger]
        starting_ids(a + b).contains(id) implies starting_ids(a).union(
        starting_ids(b),
    ).contains(id) by {
        let q = choose|q: int|
            0 <= q < (a + b).len() && #[trigger] (a + b)[q] == EventModel::Starting(id);
        if q < a.len() {
            assert(a[q] == (a + b)[q]);
        } else {
            assert(b[q - a.len()] == (a + b)[q]);
        }
    };
    assert forall|id: nat| #[trigger]
        starting_ids(a).union(starting_ids(b)).contains(id) implies starting_ids(
        a + b,
    ).contains(id) by {
        if starting_ids(a).contains(id) {
            let q = choose|q: int| 0 <= q < a.len() && #[trigger] a[q] == EventModel::Starting(id);
            assert((a + b)[q] == EventModel::Starting(id));
        } else {
            let q = choose|q: int| 0 <= q < b.len() && #[trigger] b[q] == EventModel::Starting(id);
            assert((a + b)[a.len() + q] == EventModel::Starting(id));
        }
    };
    assert(starting_ids(a + b) =~= starting_ids(a).union(starting_ids(b)));
    assert forall|id: nat| #[trigger]
        done_ids(a + b).contains(id) implies done_ids(a).union(done_ids(b)).contains(id) by {
        let q = choose|q: int|
            0 <= q < (a + b).len() && (#[trigger] (a + b)[q]) is Done && (a + b)[q]->Done_0 == id;
        if q < a.len() {
            assert(a[q] == (a + b)[q]);
        } else {
            assert(b[q - a.len()] == (a + b)[q]);
        }
    };
    assert forall|id: nat| #[trigger]
        done_ids(a).union(done_ids(b)).contains(id) implies done_ids(a + b).contains(id) by {
        if done_ids(a).contains(id) {
            let q = choose|q: int|
                0 <= q < a.len() && (#[trigger] a[q]) is Done && a[q]->Done_0 == id;
            assert((a + b)[q] == a[q]);
        } else {
            let q = choose|q: int|
                0 <= q < b.len() && (#[trigger] b[q]) is Done && b[q]->Done_0 == id;
            assert((a + b)[a.len() + q] == b[q]);
        }
    };
    assert(done_ids(a + b) =~= done_ids(a).union(done_ids(b)));
}

proof fn lemma_ids_of_pair(id: nat, path: Seq<char>, bytes: nat)
    requires
        id <= usize::MAX,
        bytes <= usize::MAX,
        forall|j: int| 0 <= j < path.len() ==> !is_ws(#[trigger] path[j]),
    ensures
        starting_ids(
            spec_line_events(start_line(id)) + spec_line_events(done_line(id, path, bytes)),
        ) == Set::<nat>::empty().insert(id),
        done_ids(spec_line_events(start_line(id)) + spec_line_events(done_line(id, path, bytes)))
            == Set::<nat>::empty().insert(id),
{
    lemma_start_line_events(id);
    lemma_clean_path_proviso(path);
    lemma_done_line_events(id, path, bytes);
    let evs = spec_line_events(start_line(id)) + spec_line_events(done_line(id, path, bytes));
    assert(evs.len() == 4);
    assert(evs[0] == EventModel::Starting(id));
    assert(evs[1] == EventModel::Output(LineModel::Normal(start_line(id))));
    assert(evs[2] == EventModel::Done(id, path, bytes));
    assert(evs[3] == EventModel::Output(LineModel::Normal(done_line(id, path, bytes))));
    assert forall|x: nat| #[trigger]
        starting_ids(evs).contains(x) implies Set::<nat>::empty().insert(id).contains(x) by {
        let q = choose|q: int| 0 <= q < evs.len() && #[trigger] evs[q] == EventModel::Starting(x);
        assert(q == 0 || q == 1 || q == 2 || q == 3);
        assert(x == id);
    };
    assert(starting_ids(evs).contains(id));
    assert(starting_ids(evs) =~= Set::<nat>::empty().insert(id));
    assert forall|x: nat| #[trigger]
        done_ids(evs).contains(x) implies Set::<nat>::empty().insert(id).contains(x) by {
        let q = choose|q: int|
            0 <= q < evs.len() && (#[trigger] evs[q]) is Done && evs[q]->Done_0 == x;
        assert(q == 0 || q == 1 || q == 2 || q == 3);
        assert(x == id);
    };
    assert((evs[2]) is Done && evs[2]->Done_0 == id);
    assert(done_ids(evs).contains(id));
    assert(done_ids(evs) =~= Set::<nat>::empty().insert(id));
}

proof fn lemma_to_set_drop_last(ids: Seq<nat>)
    requires
        ids.len() > 0,
    ensures
        ids.to_set() == ids.drop_last().to_set().insert(ids.last()),
{
    let pre = ids.drop_last();
    assert forall|x: nat| #[trigger] ids.to_set().contains(x) implies pre.to_set().insert(
        ids.last(),
    ).contains(x) by {
        let q = choose|q: int| 0 <= q < ids.len() && ids[q] == x;
        if q < ids.len() - 1 {
            assert(pre[q] == x);
            assert(pre.to_set().contains(x));
        }
    };
    assert forall|x: nat| #[trigger]
        pre.to_set().insert(ids.last()).contains(x) implies ids.to_set().contains(x) by {
        if pre.to_set().contains(x) {
            let q = choose|q: int| 0 <= q < pre.len() && pre[q] == x;
            assert(ids[q] == x);
        } else {
            assert(ids[ids.len() - 1] == x);
        }
    };
    assert(ids.to_set() =~= pre.to_set().insert(ids.last()));
}

/// Round trip: for a transcript announcing one start and one done
/// message per identifier, the identifiers observed among the `Starting`
/// events, and likewise among the `Done` events, are exactly the
/// identifiers the transcript was built from.
pub proof fn lemma_transcript_round_trip(ids: Seq<nat>, path: Seq<char>, bytes: nat)
    requires
        forall|j: int| 0 <= j < ids.len() ==> #[trigger] ids[j] <= usize::MAX,
        bytes <= usize::MAX,
        forall|j: int| 0 <= j < path.len() ==> !is_ws(#[trigger] path[j]),
    ensures
        starting_ids(transcript_events(pair_transcript(ids, path, bytes))) == ids.to_set(),
        done_ids(transcript_events(pair_transcript(ids, path, bytes))) == ids.to_set(),
    decreases ids.len(),
{
    let lines = pair_transcript(ids, path, bytes);
    if ids.len() == 0 {
        assert(transcript_events(lines) =~= Seq::<EventModel>::empty());
        assert(starting_ids(transcript_events(lines)) =~= Set::<nat>::empty());
        assert(done_ids(transcript_events(lines)) =~= Set::<nat>::empty());
        assert(ids.to_set() =~= Set::<nat>::empty());
    } else {
        let pre = ids.drop_last();
        let id = ids.last();
        lemma_transcript_round_trip(pre, path, bytes);
        let prev = pair_transcript(pre, path, bytes);
        let sl = start_line(id);
        let dl = done_line(id, path, bytes);
        assert(lines == prev + seq![sl, dl]);
        assert(lines.last() == dl);
        assert(lines.drop_last() =~= prev.push(sl));
        assert(transcript_events(lines) == transcript_events(prev.push(sl)) + spec_line_events(
            dl,
        ));
        assert(prev.push(sl).drop_last() =~= prev);
        assert(prev.push(sl).last() == sl);
        assert(transcript_events(prev.push(sl)) == transcript_events(prev) + spec_line_events(sl));
        assert(transcript_events(lines) =~= transcript_events(prev) + (spec_line_events(sl)
            + spec_line_events(dl)));
        lemma_ids_concat(transcript_events(prev), spec_line_events(sl) + spec_line_events(dl));
        lemma_ids_of_pair(id, path, bytes);
        lemma_to_set_drop_last(ids);
        assert(starting_ids(transcript_events(lines)) =~= pre.to_set().insert(id));
        assert(done_ids(transcript_events(lines)) =~= pre.to_set().insert(id));
    }
}

/// The same round trip phrased over a configuration's items: the
/// identifiers observed are exactly the configured item identifiers.
pub proof fn lemma_config_round_trip(items: Seq<Item>, path: Seq<char>, bytes: nat)
    requires
        bytes <= usize::MAX,
        forall|j: int| 0 <= j < path.len() ==> !is_ws(#[trigger] path[j]),
    ensures
        starting_ids(
            transcript_events(
                pair_transcript(items.map_values(|it: Item| it.item.0 as nat), path, bytes),
            ),
        ) == items.map_values(|it: Item| it.item.0 as nat).to_set(),
        done_ids(
            transcript_events(
                pair_transcript(items.map_values(|it: Item| it.item.0 as nat), path, bytes),
            ),
        ) == items.map_values(|it: Item| it.item.0 as nat).to_set(),
{
    let ids = items.map_values(|it: Item| it.item.0 as nat);
    assert(forall|j: int| 0 <= j < ids.len() ==> #[trigger] ids[j] <= usize::MAX);
    lemma_transcript_round_trip(ids, path, bytes);
}

} // verus!
