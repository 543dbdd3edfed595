//! What a full compaction leaves of the catalog: the same segments under the
//! same names.

use crate::catalog::SegmentMeta;
use crate::catalog::SegmentRow;
use crate::catalog::key_lt;
use crate::catalog::lemma_key_lt_asymmetric;
use crate::catalog::lemma_key_lt_irreflexive;
use crate::catalog::name_in_key;
use crate::catalog::segment_key;
use crate::errors::PagedbError;
use crate::full::CompactPhase;
use crate::full::Event;
use crate::full::Request;
use crate::full_laws::is_publication;
use crate::full_laws::lemma_pass_is_wf;
use crate::full_laws::pass_after;
use crate::options::CompactOptions;
use crate::segment::SegmentRequest;
use crate::segment::SegmentState;
use crate::segment_laws::data_page_count;
use crate::segment_laws::law_data_pages_are_copied;
use crate::segment_laws::law_only_wasteful_segments_are_touched;
use crate::segment_laws::law_replacement_is_published_once;
use crate::segment_laws::law_replacement_keeps_the_key;
use crate::segment_laws::law_row_is_kept;
use crate::segment_laws::pages_asked;
use crate::segment_laws::pages_copied;
use crate::segment_laws::pages_found;
use crate::segment_laws::publications;
use crate::segment_laws::sealed;
use crate::stream_laws::answers_so_far;
use crate::stream_laws::ends_segment;
use crate::stream_laws::finished;
use crate::stream_laws::finished_keys;
use crate::stream_laws::is_batch;
use crate::stream_laws::is_catalog;
use crate::stream_laws::keys_of;
use crate::stream_laws::law_every_segment_is_visited_once;
use crate::stream_laws::law_finished_segments_come_first;
use crate::stream_laws::law_segments_are_repacked_one_by_one;
use crate::stream_laws::rows_come_from;
use crate::types::CompactStats;
use vstd::prelude::*;
use vstd::utf8::encode_utf8;
use vstd::utf8::valid_utf8;

verus! {

/// What a catalog links after `events`, if it takes each publication as it is
/// asked for: the new metadata under the key of the row's realm and the
/// published name.
pub open spec fn catalog_after<K, E>(
    options: CompactOptions,
    catalog: Map<Seq<u8>, SegmentMeta<K>>,
    events: Seq<Event<K, E>>,
) -> Map<Seq<u8>, SegmentMeta<K>>
    decreases events.len(),
{
    if events.len() == 0 {
        catalog
    } else {
        let before = catalog_after(options, catalog, events.drop_last());
        let state = pass_after(options, events.drop_last())->0;
        match state.request() {
            Some(
                Request::Segment(SegmentRequest::Replace { name, old_segment_id, new_meta }),
            ) => if is_publication(events.last()) {
                let realm_id = state.phase->segment.row.meta.realm_id;
                before.insert(
                    segment_key(options.segment_row_kind, realm_id, encode_utf8(name)),
                    new_meta,
                )
            } else {
                before
            },
            _ => before,
        }
    }
}

/// Whether `keys` are the keys of `catalog` in order.
pub open spec fn lists_catalog<K>(
    segment_row_kind: u8,
    keys: Seq<Seq<u8>>,
    catalog: Map<Seq<u8>, SegmentMeta<K>>,
) -> bool {
    &&& is_catalog(segment_row_kind, keys)
    &&& forall|key: Seq<u8>| #[trigger] catalog.dom().contains(key) <==> keys.contains(key)
}

/// Whether the name of every segment that was published among `events` is text.
pub open spec fn published_names_are_text<K, E>(
    options: CompactOptions,
    events: Seq<Event<K, E>>,
) -> bool {
    forall|i: int|
        0 <= i < finished(options, events).len() ==> (#[trigger] finished(options, events)[i].outcome(
            options,
        ) is Repacked ==> valid_utf8(name_in_key(finished(options, events)[i].row.key@)))
}

/// Whether every key that is long enough to hold a name holds one that is text.
pub open spec fn names_are_text(keys: Seq<Seq<u8>>) -> bool {
    forall|i: int|
        0 <= i < keys.len() ==> (#[trigger] keys[i]).len() >= 17 ==> valid_utf8(
            name_in_key(keys[i]),
        )
}

/// Where the keys stay as they are and the names in them are text, whatever is
/// published has a name that is text.
pub proof fn law_text_names_are_published_as_text<K, E>(
    options: CompactOptions,
    keys: Seq<Seq<u8>>,
    events: Seq<Event<K, E>>,
)
    requires
        pass_after(options, events) is Some,
        options.segment_row_batch > 0,
        is_catalog(options.segment_row_kind, keys),
        rows_come_from(options, keys, events),
        names_are_text(keys),
    ensures
        published_names_are_text(options, events),
{
    law_finished_segments_come_first(options, keys, events);
    law_segments_are_repacked_one_by_one(options, events);
    let done = finished(options, events);
    assert forall|i: int| 0 <= i < done.len() implies (#[trigger] done[i].outcome(
        options,
    ) is Repacked ==> valid_utf8(name_in_key(done[i].row.key@))) by {
        assert(done[i].is_whole_repack(options));
        assert(finished_keys(options, events)[i] == keys[i]);
        if done[i].outcome(options) is Repacked {
            law_only_wasteful_segments_are_touched(options, done[i].row, done[i].answers);
            law_row_is_kept(options, done[i].row, done[i].answers);
            assert(keys[i].len() >= 17);
        }
    }
}

/// What was published so far is text where all that is published is.
proof fn lemma_earlier_names_are_text<K, E>(options: CompactOptions, events: Seq<Event<K, E>>)
    requires
        pass_after(options, events) is Some,
        events.len() > 0,
        published_names_are_text(options, events),
    ensures
        published_names_are_text(options, events.drop_last()),
{
    let before = finished(options, events.drop_last());
    let done = finished(options, events);
    assert forall|i: int| 0 <= i < before.len() implies (#[trigger] before[i].outcome(
        options,
    ) is Repacked ==> valid_utf8(name_in_key(before[i].row.key@))) by {
        assert(done[i] == before[i]);
        assert(done[i].outcome(options) is Repacked ==> valid_utf8(name_in_key(done[i].row.key@)));
    }
}

/// Keys in order differ.
proof fn lemma_keys_differ(segment_row_kind: u8, keys: Seq<Seq<u8>>, i: int, j: int)
    requires
        is_catalog(segment_row_kind, keys),
        0 <= i < keys.len(),
        0 <= j < keys.len(),
        keys[i] == keys[j],
    ensures
        i == j,
{
    lemma_key_lt_irreflexive(keys[i]);
    assert(i < j ==> key_lt(keys[i], keys[j]));
    assert(j < i ==> key_lt(keys[j], keys[i]));
}

/// A segment that is published under a name that is text is published under its
/// row's own key, with the metadata that was sealed.
proof fn lemma_published_under_own_key<K, E>(
    options: CompactOptions,
    catalog: Map<Seq<u8>, SegmentMeta<K>>,
    events: Seq<Event<K, E>>,
)
    requires
        pass_after(options, events) is Some,
        events.len() > 0,
        is_publication(events.last()),
        published_names_are_text(options, events),
    ensures
        ({
            let segment = pass_after(options, events.drop_last())->0.phase->segment;
            let done = finished(options, events);
            &&& done == finished(options, events.drop_last()).push(done.last())
            &&& done.last().row == segment.row
            &&& done.last().outcome(options) is Repacked
            &&& sealed(done.last().answers).len() == 1
            &&& catalog_after(options, catalog, events) == catalog_after(
                options,
                catalog,
                events.drop_last(),
            ).insert(segment.row.key@, sealed(done.last().answers)[0])
        }),
{
    let earlier = events.drop_last();
    lemma_pass_is_wf(options, earlier);
    law_segments_are_repacked_one_by_one(options, earlier);
    let state = pass_after(options, earlier)->0;
    let segment = state.phase->segment;
    let answer = events.last()->Segment_0;
    let taken = answers_so_far(options, earlier);
    let all = taken.push(answer);
    assert(all.drop_last() =~= taken);
    assert(ends_segment(state, events.last()));
    let done = finished(options, events);
    assert(done.drop_last() =~= finished(options, earlier));
    assert(done[done.len() - 1].outcome(options) is Repacked);
    law_replacement_is_published_once(options, segment.row, taken);
    law_replacement_is_published_once(options, segment.row, all);
    law_replacement_keeps_the_key(options, segment.row, taken);
    let published = publications(
        SegmentState::<K, E>::initial(options, segment.row),
        all,
    );
    assert(published[0] == segment.request()->0);
}

/// What is linked stays linked, under the same names.
///
/// Where every published name is text, a pass neither adds a key to the catalog
/// nor takes one away, at whatever point it stands and however it ends. Under
/// the key of a segment that was repacked stands the replacement that was sealed
/// for it; under every other key stands what stood there before.
pub proof fn law_linked_names_stay<K, E>(
    options: CompactOptions,
    catalog: Map<Seq<u8>, SegmentMeta<K>>,
    keys: Seq<Seq<u8>>,
    events: Seq<Event<K, E>>,
)
    requires
        pass_after(options, events) is Some,
        options.segment_row_batch > 0,
        lists_catalog(options.segment_row_kind, keys, catalog),
        published_names_are_text(options, events),
        rows_come_from(options, keys, events),
    ensures
        catalog_after(options, catalog, events).dom() == catalog.dom(),
        finished(options, events).len() <= keys.len(),
        forall|i: int|
            0 <= i < keys.len() ==> catalog_after(options, catalog, events)[#[trigger] keys[i]]
                == if i < finished(options, events).len() && finished(options, events)[i].outcome(
                options,
            ) is Repacked {
                sealed(finished(options, events)[i].answers)[0]
            } else {
                catalog[keys[i]]
            },
    decreases events.len(),
{
    law_finished_segments_come_first(options, keys, events);
    if events.len() > 0 {
        let earlier = events.drop_last();
        lemma_earlier_names_are_text(options, events);
        law_linked_names_stay(options, catalog, keys, earlier);
        law_finished_segments_come_first(options, keys, earlier);
        lemma_pass_is_wf(options, earlier);
        law_segments_are_repacked_one_by_one(options, earlier);
        let state = pass_after(options, earlier)->0;
        let before = finished(options, earlier);
        let done = finished(options, events);
        let at = before.len() as int;
        if is_publication(events.last()) {
            let key = state.phase->segment.row.key@;
            assert(key == keys[at]);
            lemma_published_under_own_key(options, catalog, events);
            assert(keys.contains(key));
            assert(catalog_after(options, catalog, events).dom() =~= catalog.dom());
            assert forall|i: int| 0 <= i < keys.len() implies catalog_after(
                options,
                catalog,
                events,
            )[#[trigger] keys[i]] == if i < done.len() && done[i].outcome(options) is Repacked {
                sealed(done[i].answers)[0]
            } else {
                catalog[keys[i]]
            } by {
                if keys[i] == key {
                    lemma_keys_differ(options.segment_row_kind, keys, i, at);
                }
                if i < at {
                    assert(done[i] == before[i]);
                }
            }
        } else if ends_segment(state, events.last()) {
            let answer = events.last()->Segment_0;
            let taken = answers_so_far(options, earlier);
            assert(taken.push(answer).drop_last() =~= taken);
            assert(!(done.last().outcome(options) is Repacked));
            assert(forall|i: int| 0 <= i < at ==> done[i] == before[i]);
        }
    }
}

/// Contents are kept.
///
/// Every segment that a pass repacked is replaced, under its own key, by the one
/// segment that was sealed for it, and into that segment went each of its data
/// pages that could be read, unchanged and in order.
pub proof fn law_segment_contents_are_kept<K, E>(
    options: CompactOptions,
    catalog: Map<Seq<u8>, SegmentMeta<K>>,
    keys: Seq<Seq<u8>>,
    events: Seq<Event<K, E>>,
    i: int,
)
    requires
        pass_after(options, events) is Some,
        options.segment_row_batch > 0,
        lists_catalog(options.segment_row_kind, keys, catalog),
        published_names_are_text(options, events),
        rows_come_from(options, keys, events),
        0 <= i < finished(options, events).len(),
        finished(options, events)[i].outcome(options) is Repacked,
    ensures
        ({
            let segment = finished(options, events)[i];
            let start = SegmentState::<K, E>::initial(options, segment.row);
            &&& segment.row.key@ == keys[i]
            &&& sealed(segment.answers).len() == 1
            &&& catalog_after(options, catalog, events)[keys[i]] == sealed(segment.answers)[0]
            &&& pages_asked(start, segment.answers) == Seq::new(
                data_page_count(segment.row.meta.page_count),
                |j: int| (j + 1) as u64,
            )
            &&& pages_copied(start, segment.answers) == pages_found(segment.answers)
        }),
{
    let segment = finished(options, events)[i];
    law_finished_segments_come_first(options, keys, events);
    assert(finished_keys(options, events)[i] == segment.row.key@);
    law_linked_names_stay(options, catalog, keys, events);
    law_segments_are_repacked_one_by_one(options, events);
    assert(segment.is_whole_repack(options));
    law_replacement_is_published_once(options, segment.row, segment.answers);
    law_data_pages_are_copied(options, segment.row, segment.answers);
}

/// A catalog's keys have one order.
proof fn lemma_order_is_unique<K>(
    segment_row_kind: u8,
    a: Seq<Seq<u8>>,
    b: Seq<Seq<u8>>,
    catalog: Map<Seq<u8>, SegmentMeta<K>>,
)
    requires
        lists_catalog(segment_row_kind, a, catalog),
        lists_catalog(segment_row_kind, b, catalog),
    ensures
        a == b,
    decreases a.len(),
{
    if a.len() == 0 || b.len() == 0 {
        if a.len() > 0 {
            assert(a.contains(a[0]));
            assert(catalog.dom().contains(a[0]));
        }
        if b.len() > 0 {
            assert(b.contains(b[0]));
            assert(catalog.dom().contains(b[0]));
        }
        assert(a =~= b);
    } else {
        assert(a.contains(a[0]) && b.contains(b[0]));
        assert(catalog.dom().contains(a[0]) && catalog.dom().contains(b[0]));
        let i = choose|i: int| 0 <= i < a.len() && a[i] == b[0];
        let j = choose|j: int| 0 <= j < b.len() && b[j] == a[0];
        assert(i > 0 ==> key_lt(a[0], a[i]));
        assert(j > 0 ==> key_lt(b[0], b[j]));
        lemma_key_lt_asymmetric(a[0], b[0]);
        lemma_key_lt_irreflexive(a[0]);
        assert(a[0] == b[0]);
        let rest = catalog.remove(a[0]);
        lemma_first_is_taken_off(segment_row_kind, a, catalog);
        lemma_first_is_taken_off(segment_row_kind, b, catalog);
        lemma_order_is_unique(segment_row_kind, a.drop_first(), b.drop_first(), rest);
        assert(a =~= seq![a[0]] + a.drop_first());
        assert(b =~= seq![b[0]] + b.drop_first());
    }
}

proof fn lemma_first_is_taken_off<K>(
    segment_row_kind: u8,
    keys: Seq<Seq<u8>>,
    catalog: Map<Seq<u8>, SegmentMeta<K>>,
)
    requires
        keys.len() > 0,
        lists_catalog(segment_row_kind, keys, catalog),
    ensures
        lists_catalog(segment_row_kind, keys.drop_first(), catalog.remove(keys[0])),
{
    let tail = keys.drop_first();
    let rest = catalog.remove(keys[0]);
    assert forall|key: Seq<u8>| #[trigger] rest.dom().contains(key) <==> tail.contains(key) by {
        if rest.dom().contains(key) {
            assert(catalog.dom().contains(key));
            let i = choose|i: int| 0 <= i < keys.len() && keys[i] == key;
            assert(tail[i - 1] == key);
        }
        if tail.contains(key) {
            let i = choose|i: int| 0 <= i < tail.len() && tail[i] == key;
            assert(keys[i + 1] == key);
            assert(keys.contains(key));
            assert(catalog.dom().contains(key));
            if key == keys[0] {
                lemma_keys_differ(segment_row_kind, keys, 0, i + 1);
            }
        }
    }
}

/// Whether each of `rows` carries the metadata that `catalog` links under its
/// key.
pub open spec fn rows_are_as_linked<K>(
    catalog: Map<Seq<u8>, SegmentMeta<K>>,
    rows: Seq<SegmentRow<K>>,
) -> bool {
    forall|i: int| 0 <= i < rows.len() ==> (#[trigger] rows[i]).meta == catalog[rows[i].key@]
}

/// Whether every batch among `events` is one that the catalog has at the cursor
/// that was asked for, as it stands by then: with every publication taken.
pub open spec fn rows_come_from_catalog<K, E>(
    options: CompactOptions,
    catalog: Map<Seq<u8>, SegmentMeta<K>>,
    events: Seq<Event<K, E>>,
) -> bool
    decreases events.len(),
{
    events.len() > 0 ==> rows_come_from_catalog(options, catalog, events.drop_last()) && match (
        pass_after(options, events.drop_last())->0.request(),
        events.last(),
    ) {
        (Some(Request::FetchSegmentRows { cursor }), Event::SegmentRows(Ok(rows))) => exists|
            now: Seq<Seq<u8>>,
        |
            #[trigger] lists_catalog(
                options.segment_row_kind,
                now,
                catalog_after(options, catalog, events.drop_last()),
            ) && is_batch(now, cursor, options.segment_row_batch, rows@) && rows_are_as_linked(
                catalog_after(options, catalog, events.drop_last()),
                rows@,
            ),
        _ => true,
    }
}

/// The catalog may take every publication while the pass streams it: where every
/// published name is text, each batch is still the one that the catalog had at
/// that cursor when the pass began.
pub proof fn law_publications_leave_the_stream_alone<K, E>(
    options: CompactOptions,
    catalog: Map<Seq<u8>, SegmentMeta<K>>,
    keys: Seq<Seq<u8>>,
    events: Seq<Event<K, E>>,
)
    requires
        pass_after(options, events) is Some,
        options.segment_row_batch > 0,
        lists_catalog(options.segment_row_kind, keys, catalog),
        published_names_are_text(options, events),
        rows_come_from_catalog(options, catalog, events),
    ensures
        rows_come_from(options, keys, events),
    decreases events.len(),
{
    if events.len() > 0 {
        let earlier = events.drop_last();
        lemma_earlier_names_are_text(options, events);
        law_publications_leave_the_stream_alone(options, catalog, keys, earlier);
        law_linked_names_stay(options, catalog, keys, earlier);
        let current = catalog_after(options, catalog, earlier);
        match (pass_after(options, earlier)->0.phase, events.last()) {
            (CompactPhase::FetchSegmentRows { cursor }, Event::SegmentRows(Ok(rows))) => {
                let now = choose|now: Seq<Seq<u8>>|
                    #[trigger] lists_catalog(options.segment_row_kind, now, current) && is_batch(
                        now,
                        cursor,
                        options.segment_row_batch,
                        rows@,
                    );
                assert(lists_catalog(options.segment_row_kind, keys, current));
                lemma_order_is_unique(options.segment_row_kind, now, keys, current);
            },
            _ => {},
        }
    }
}

/// A catalog whose names are text needs no look at what is published: a pass over
/// it, with every publication taken, publishes under names that are text.
pub proof fn law_catalog_of_text_publishes_text<K, E>(
    options: CompactOptions,
    catalog: Map<Seq<u8>, SegmentMeta<K>>,
    keys: Seq<Seq<u8>>,
    events: Seq<Event<K, E>>,
)
    requires
        pass_after(options, events) is Some,
        options.segment_row_batch > 0,
        lists_catalog(options.segment_row_kind, keys, catalog),
        names_are_text(keys),
        rows_come_from_catalog(options, catalog, events),
    ensures
        published_names_are_text(options, events),
    decreases events.len(),
{
    if events.len() > 0 {
        let earlier = events.drop_last();
        law_catalog_of_text_publishes_text(options, catalog, keys, earlier);
        law_publications_leave_the_stream_alone(options, catalog, keys, earlier);
        match (pass_after(options, earlier)->0.phase, events.last()) {
            (CompactPhase::FetchSegmentRows { cursor }, Event::SegmentRows(Ok(rows))) => {
                assert(finished(options, events) == finished(options, earlier));
            },
            _ => {
                law_text_names_are_published_as_text(options, keys, events);
            },
        }
    }
}

/// Each segment is taken up as the catalog linked it when the pass began: no
/// publication of the same pass has touched its row before.
pub proof fn law_segments_are_taken_as_linked<K, E>(
    options: CompactOptions,
    catalog: Map<Seq<u8>, SegmentMeta<K>>,
    keys: Seq<Seq<u8>>,
    events: Seq<Event<K, E>>,
)
    requires
        pass_after(options, events) is Some,
        options.segment_row_batch > 0,
        lists_catalog(options.segment_row_kind, keys, catalog),
        published_names_are_text(options, events),
        rows_come_from_catalog(options, catalog, events),
    ensures
        forall|i: int|
            0 <= i < finished(options, events).len() ==> (#[trigger] finished(
                options,
                events,
            )[i]).row.meta == catalog[finished(options, events)[i].row.key@],
        pass_after(options, events)->0.phase matches CompactPhase::RepackSegments {
            segment,
            rest,
            cursor,
            exhausted,
        } ==> segment.row.meta == catalog[segment.row.key@] && rows_are_as_linked(catalog, rest),
    decreases events.len(),
{
    if events.len() > 0 {
        let earlier = events.drop_last();
        lemma_earlier_names_are_text(options, events);
        law_segments_are_taken_as_linked(options, catalog, keys, earlier);
        lemma_pass_is_wf(options, earlier);
        let state = pass_after(options, earlier)->0;
        match (state.phase, events.last()) {
            (CompactPhase::FetchSegmentRows { cursor }, Event::SegmentRows(Ok(rows))) => {
                law_publications_leave_the_stream_alone(options, catalog, keys, earlier);
                law_publications_leave_the_stream_alone(options, catalog, keys, events);
                law_linked_names_stay(options, catalog, keys, earlier);
                law_finished_segments_come_first(options, keys, earlier);
                let from = finished(options, earlier).len() as int;
                assert forall|i: int| 0 <= i < rows@.len() implies (#[trigger] rows@[i]).meta
                    == catalog[rows@[i].key@] by {
                    assert(keys_of(rows@).len() == rows@.len());
                    assert(keys_of(rows@)[i] == rows@[i].key@);
                    assert(rows@[i].key@ == keys[from + i]);
                }
            },
            _ => {
                let before = finished(options, earlier);
                let done = finished(options, events);
                assert(forall|i: int| 0 <= i < before.len() ==> done[i] == before[i]);
            },
        }
    }
}

/// A pass over a catalog that takes its publications goes through every segment
/// the catalog links, each once and in order, and leaves the same names linked.
pub proof fn law_pass_covers_the_catalog<K, E>(
    options: CompactOptions,
    catalog: Map<Seq<u8>, SegmentMeta<K>>,
    keys: Seq<Seq<u8>>,
    events: Seq<Event<K, E>>,
    stats: CompactStats,
)
    requires
        pass_after(options, events) is Some,
        pass_after(options, events)->0.settled() == Some(
            Ok::<CompactStats, PagedbError<E>>(stats),
        ),
        !stats.declined_readers_pinned,
        options.segment_row_batch > 0,
        lists_catalog(options.segment_row_kind, keys, catalog),
        published_names_are_text(options, events),
        rows_come_from_catalog(options, catalog, events),
    ensures
        finished_keys(options, events) == keys,
        catalog_after(options, catalog, events).dom() == catalog.dom(),
{
    law_publications_leave_the_stream_alone(options, catalog, keys, events);
    law_every_segment_is_visited_once(options, keys, events, stats);
    law_linked_names_stay(options, catalog, keys, events);
}

} // verus!
