//! The two-stage event filter: geographic selection by per-event flags,
//! then case-insensitive free-text search, each stage narrowing the
//! previous result while preserving order.

use vstd::prelude::*;
use crate::event::Event;
use crate::text::{contains_substring, is_substring, lower_of, matches_at, to_lowercase};

verus! {

/// The event's searchable text, lowercased, contains the given needle.
/// The needle is expected to be lowercased already.
pub open spec fn event_matches(needle: Seq<char>, e: Event) -> bool {
    is_substring(needle, lower_of(e.search_text()))
}

/// The events whose lowered search text contains the needle, in order.
pub open spec fn filter_matching(s: Seq<Event>, needle: Seq<char>) -> Seq<Event>
    decreases s.len(),
{
    if s.len() == 0 {
        Seq::empty()
    } else {
        let rest = filter_matching(s.drop_last(), needle);
        if event_matches(needle, s.last()) {
            rest.push(s.last())
        } else {
            rest
        }
    }
}

/// The events at positions whose flag is set, in order.
pub open spec fn select_flagged(s: Seq<Event>, flags: Seq<bool>) -> Seq<Event>
    recommends
        s.len() == flags.len(),
    decreases s.len(),
{
    if s.len() == 0 {
        Seq::empty()
    } else {
        let rest = select_flagged(s.drop_last(), flags.drop_last());
        if flags.last() {
            rest.push(s.last())
        } else {
            rest
        }
    }
}

/// Keeps the events whose flag is set, in their original order.
pub fn select_within(events: &Vec<Event>, within: &Vec<bool>) -> (res: Vec<Event>)
    requires
        events@.len() == within@.len(),
    ensures
        res@ == select_flagged(events@, within@),
{
    let n = events.len();
    let mut res: Vec<Event> = Vec::new();
    let mut i: usize = 0;
    while i < n
        invariant
            n == events@.len(),
            n == within@.len(),
            i <= n,
            res@ == select_flagged(events@.subrange(0, i as int), within@.subrange(0, i as int)),
        decreases n - i,
    {
        if within[i] {
            let e = &events[i];
            res.push(e.clone());
        }
        proof {
            let pre = events@.subrange(0, i as int);
            let post = events@.subrange(0, i + 1);
            let fpre = within@.subrange(0, i as int);
            let fpost = within@.subrange(0, i + 1);
            assert(post.drop_last() =~= pre);
            assert(fpost.drop_last() =~= fpre);
            assert(post.last() == events@[i as int]);
            assert(fpost.last() == within@[i as int]);
        }
        i += 1;
    }
    proof {
        assert(events@.subrange(0, n as int) =~= events@);
        assert(within@.subrange(0, n as int) =~= within@);
    }
    res
}

/// The event's lowered search text contains the given (lowered) needle.
fn matches_needle(e: &Event, needle: &str) -> (b: bool)
    ensures
        b == event_matches(needle@, *e),
{
    let hay = e.search_string();
    let hay_lower = to_lowercase(hay.as_str());
    contains_substring(hay_lower.as_str(), needle)
}

/// An empty needle occurs in every haystack, so it keeps every event.
proof fn lemma_empty_needle_keeps_all(s: Seq<Event>, needle: Seq<char>)
    requires
        needle.len() == 0,
    ensures
        filter_matching(s, needle) == s,
    decreases s.len(),
{
    if s.len() == 0 {
        assert(filter_matching(s, needle) =~= s);
    } else {
        lemma_empty_needle_keeps_all(s.drop_last(), needle);
        assert(matches_at(needle, lower_of(s.last().search_text()), 0));
        assert(filter_matching(s, needle) =~= s.drop_last().push(s.last()));
        assert(s.drop_last().push(s.last()) =~= s);
    }
}

/// Keeps the events whose searchable text, lowercased, contains the lowercased
/// query, in their original order. An empty query keeps every event.
pub fn text_filter(events: &Vec<Event>, q: &str) -> (res: Vec<Event>)
    ensures
        res@ == filter_matching(events@, lower_of(q@)),
        q@.len() == 0 ==> res@ == events@,
{
    let needle = to_lowercase(q);
    let ghost needle_view = needle@;
    let n = events.len();
    let mut res: Vec<Event> = Vec::new();
    let mut i: usize = 0;
    while i < n
        invariant
            n == events@.len(),
            needle@ == needle_view,
            needle_view == lower_of(q@),
            i <= n,
            res@ == filter_matching(events@.subrange(0, i as int), needle_view),
        decreases n - i,
    {
        let e = &events[i];
        if matches_needle(e, needle.as_str()) {
            res.push(e.clone());
        }
        proof {
            let pre = events@.subrange(0, i as int);
            let post = events@.subrange(0, i + 1);
            assert(post.drop_last() =~= pre);
            assert(post.last() == events@[i as int]);
        }
        i += 1;
    }
    proof {
        assert(events@.subrange(0, n as int) =~= events@);
        if q@.len() == 0 {
            lemma_empty_needle_keeps_all(events@, needle_view);
        }
    }
    res
}

/// A copy of the whole collection, in order.
fn clone_events(events: &Vec<Event>) -> (res: Vec<Event>)
    ensures
        res@ == events@,
{
    let n = events.len();
    let mut res: Vec<Event> = Vec::new();
    let mut i: usize = 0;
    while i < n
        invariant
            n == events@.len(),
            i <= n,
            res@ == events@.subrange(0, i as int),
        decreases n - i,
    {
        let e = &events[i];
        res.push(e.clone());
        proof {
            assert(events@.subrange(0, i + 1) =~= events@.subrange(0, i as int).push(events@[i as int]));
        }
        i += 1;
    }
    proof {
        assert(events@.subrange(0, n as int) =~= events@);
    }
    res
}

/// Applies the geographic stage (when per-event flags are given), then the
/// text stage (when a query is given); with neither, the collection comes
/// back unchanged, in its original order.
pub fn filter_events(events: &Vec<Event>, within: Option<&Vec<bool>>, q: Option<&str>) -> (res: Vec<Event>)
    requires
        within is Some ==> within.unwrap()@.len() == events@.len(),
    ensures
        (within is Some && q is Some) ==> res@ == filter_matching(
            select_flagged(events@, within.unwrap()@),
            lower_of(q.unwrap()@),
        ),
        (within is Some && q is None) ==> res@ == select_flagged(events@, within.unwrap()@),
        (within is None && q is Some) ==> res@ == filter_matching(
            events@,
            lower_of(q.unwrap()@),
        ),
        (within is None && q is None) ==> res@ == events@,
        (within is None && q is Some && q.unwrap()@.len() == 0) ==> res@ == events@,
        forall|i: int| 0 <= i < res@.len() ==> events@.contains(#[trigger] res@[i]),
    {
    let base = match within {
        Some(w) => select_within(events, w),
        None => clone_events(events),
    };
    let res = match q {
        Some(qs) => text_filter(&base, qs),
        None => base,
    };
    proof {
        assert forall|i: int| 0 <= i < res@.len() implies events@.contains(#[trigger] res@[i]) by {
            if within is Some {
                let w = within.unwrap();
                if q is Some {
                    lemma_filter_matching_membership(base@, lower_of(q.unwrap()@), res@[i]);
                }
                assert(base@.contains(res@[i]));
                lemma_select_flagged_membership(events@, w@, res@[i]);
            } else {
                if q is Some {
                    lemma_filter_matching_membership(events@, lower_of(q.unwrap()@), res@[i]);
                }
            }
        }
    }
    res
}

/// Law: the geographic stage keeps exactly the events at a flagged position.
pub proof fn lemma_select_flagged_membership(s: Seq<Event>, flags: Seq<bool>, e: Event)
    requires
        s.len() == flags.len(),
    ensures
        select_flagged(s, flags).contains(e) <==> (exists|i: int|
            0 <= i < s.len() && flags[i] && s[i] == e),
    decreases s.len(),
{
    if s.len() == 0 {
    } else {
        lemma_select_flagged_membership(s.drop_last(), flags.drop_last(), e);
        let rest = select_flagged(s.drop_last(), flags.drop_last());
        let whole = select_flagged(s, flags);
        if whole.contains(e) {
            let k = choose|k: int| 0 <= k < whole.len() && whole[k] == e;
            if flags.last() {
                if k < rest.len() {
                    assert(rest.contains(e));
                    let i = choose|i: int| 0 <= i < s.drop_last().len() && flags.drop_last()[i] && s.drop_last()[i] == e;
                    assert(flags[i] && s[i] == e);
                } else {
                    assert(s[s.len() - 1] == e && flags[s.len() - 1]);
                }
            } else {
                let i = choose|i: int| 0 <= i < s.drop_last().len() && flags.drop_last()[i] && s.drop_last()[i] == e;
                assert(flags[i] && s[i] == e);
            }
        }
        if exists|i: int| 0 <= i < s.len() && flags[i] && s[i] == e {
            let i = choose|i: int| 0 <= i < s.len() && flags[i] && s[i] == e;
            if i == s.len() - 1 {
                assert(whole[whole.len() - 1] == e);
            } else {
                assert(flags.drop_last()[i] && s.drop_last()[i] == e);
                assert(rest.contains(e));
                let k = choose|k: int| 0 <= k < rest.len() && rest[k] == e;
                assert(whole[k] == e);
            }
        }
    }
}

/// Law: the text stage keeps exactly the events of the input whose lowered
/// search text contains the (lowered) needle.
pub proof fn lemma_filter_matching_membership(s: Seq<Event>, needle: Seq<char>, e: Event)
    ensures
        filter_matching(s, needle).contains(e) <==> (s.contains(e) && event_matches(needle, e)),
    decreases s.len(),
{
    if s.len() == 0 {
    } else {
        lemma_filter_matching_membership(s.drop_last(), needle, e);
        let rest = filter_matching(s.drop_last(), needle);
        let whole = filter_matching(s, needle);
        if whole.contains(e) {
            let k = choose|k: int| 0 <= k < whole.len() && whole[k] == e;
            if event_matches(needle, s.last()) && k == whole.len() - 1 {
                assert(s.contains(e)) by {
                    assert(s[s.len() - 1] == e);
                }
            } else {
                assert(rest.contains(e));
                assert(s.drop_last().contains(e));
                let i = choose|i: int| 0 <= i < s.drop_last().len() && s.drop_last()[i] == e;
                assert(s[i] == e);
            }
        }
        if s.contains(e) && event_matches(needle, e) {
            let i = choose|i: int| 0 <= i < s.len() && s[i] == e;
            if i == s.len() - 1 {
                assert(whole[whole.len() - 1] == e);
            } else {
                assert(s.drop_last()[i] == e);
                assert(s.drop_last().contains(e));
                assert(rest.contains(e));
                let k = choose|k: int| 0 <= k < rest.len() && rest[k] == e;
                if event_matches(needle, s.last()) {
                    assert(whole[k] == e);
                } else {
                    assert(whole[k] == e);
                }
            }
        }
    }
}

/// Law: composing the two stages keeps exactly the events kept by both
/// stages run alone on the full collection.
pub proof fn lemma_compose_intersection(s: Seq<Event>, flags: Seq<bool>, needle: Seq<char>, e: Event)
    requires
        s.len() == flags.len(),
    ensures
        filter_matching(select_flagged(s, flags), needle).contains(e) <==> (select_flagged(
            s,
            flags,
        ).contains(e) && filter_matching(s, needle).contains(e)),
{
    let geo = select_flagged(s, flags);
    lemma_filter_matching_membership(geo, needle, e);
    lemma_filter_matching_membership(s, needle, e);
    lemma_select_flagged_membership(s, flags, e);
}

} // verus!
