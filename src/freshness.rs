//! Deciding whether a task's version is the newest one that is published.
use vstd::prelude::*;

use crate::version::{
    is_fully_qualified, lemma_version_order_total, lemma_version_order_transitive,
    parse_version_spec, render_spec, version_le, version_lt, RawTag, Version,
};

verus! {

/// The outcome for one task, as the gauges publish it.
#[derive(Debug, PartialEq)]
pub enum UpdatedVersion {
    UpToDate { version: String },
    OutOfDate { current: String, newest: String },
}

pub enum UpdatedVersionView {
    UpToDate { version: Seq<char> },
    OutOfDate { current: Seq<char>, newest: Seq<char> },
}

impl View for UpdatedVersion {
    type V = UpdatedVersionView;

    open spec fn view(&self) -> UpdatedVersionView {
        match self {
            UpdatedVersion::UpToDate { version } => UpdatedVersionView::UpToDate {
                version: version@,
            },
            UpdatedVersion::OutOfDate { current, newest } => UpdatedVersionView::OutOfDate {
                current: current@,
                newest: newest@,
            },
        }
    }
}

impl UpdatedVersion {
    /// A copy of the outcome.
    pub fn duplicate(&self) -> (r: UpdatedVersion)
        ensures
            r == *self,
    {
        match self {
            UpdatedVersion::UpToDate { version } => UpdatedVersion::UpToDate { version: version.clone() },
            UpdatedVersion::OutOfDate { current, newest } => UpdatedVersion::OutOfDate {
                current: current.clone(),
                newest: newest.clone(),
            },
        }
    }
}

impl UpdatedVersion {
    /// The values of the `up_to_date` and `out_of_date` gauges: one of them 1.
    pub fn gauge_levels(&self) -> (r: (u8, u8))
        ensures
            r == (match self {
                UpdatedVersion::UpToDate { .. } => (1u8, 0u8),
                UpdatedVersion::OutOfDate { .. } => (0u8, 1u8),
            }),
    {
        match self {
            UpdatedVersion::UpToDate { .. } => (1, 0),
            UpdatedVersion::OutOfDate { .. } => (0, 1),
        }
    }

    /// The `current` and `newest` labels of the versions gauge; an up-to-date
    /// task has its version in both.
    pub fn version_labels(&self) -> (r: (String, String))
        ensures
            match self {
                UpdatedVersion::UpToDate { version } => r.0@ == version@ && r.1@ == version@,
                UpdatedVersion::OutOfDate { current, newest } => r.0@ == current@ && r.1@ == newest@,
            },
    {
        match self {
            UpdatedVersion::UpToDate { version } => (version.clone(), version.clone()),
            UpdatedVersion::OutOfDate { current, newest } => (current.clone(), newest.clone()),
        }
    }
}

/// The version a published tag offers for comparison: only one that parses
/// and names every component.
pub open spec fn candidate(tag: Seq<char>) -> Option<Version> {
    match parse_version_spec(tag) {
        Ok(v) => if is_fully_qualified(v) { Some(v) } else { None },
        Err(_) => None,
    }
}

pub open spec fn tag_views(tags: Seq<String>) -> Seq<Seq<char>> {
    tags.map_values(|t: String| t@)
}

pub open spec fn has_candidate(tags: Seq<Seq<char>>) -> bool {
    exists|i: int| 0 <= i < tags.len() && #[trigger] candidate(tags[i]) is Some
}

/// `m` is the greatest candidate among `tags`.
pub open spec fn is_newest(tags: Seq<Seq<char>>, m: Version) -> bool {
    &&& exists|i: int| 0 <= i < tags.len() && #[trigger] candidate(tags[i]) == Some(m)
    &&& forall|i: int|
        0 <= i < tags.len() && #[trigger] candidate(tags[i]) is Some ==> version_le(
            candidate(tags[i])->0,
            m,
        )
}

/// The outcome for a task at `current` when `newest` is the newest release.
pub open spec fn freshness_spec(current: Version, newest: Version) -> UpdatedVersionView {
    if version_lt(current, newest) {
        UpdatedVersionView::OutOfDate { current: render_spec(current), newest: render_spec(newest) }
    } else {
        UpdatedVersionView::UpToDate { version: render_spec(current) }
    }
}

/// The greatest candidate among the published tags, if there is one.
pub fn newest_version(tags: &Vec<String>) -> (r: Option<Version>)
    ensures
        r is None <==> !has_candidate(tag_views(tags@)),
        r matches Some(m) ==> is_newest(tag_views(tags@), m),
{
    let ghost tv = tag_views(tags@);
    let mut best: Option<Version> = None;
    let mut i: usize = 0;
    while i < tags.len()
        invariant
            i <= tags@.len(),
            tv == tag_views(tags@),
            best is None <==> forall|j: int| 0 <= j < i ==> #[trigger] candidate(tv[j]) is None,
            best matches Some(m) ==> {
                &&& exists|j: int| 0 <= j < i && #[trigger] candidate(tv[j]) == Some(m)
                &&& forall|j: int|
                    0 <= j < i && #[trigger] candidate(tv[j]) is Some ==> version_le(
                        candidate(tv[j])->0,
                        m,
                    )
            },
        decreases tags@.len() - i,
    {
        let tag = RawTag::new(tags[i].as_str());
        assert(tv[i as int] == tags@[i as int]@);
        let parsed = tag.parse_version();
        if let Ok(v) = parsed {
            if v.fully_qualified() {
                assert(candidate(tv[i as int]) == Some(v));
                match best {
                    None => {
                        best = Some(v);
                    },
                    Some(b) => {
                        if matches!(b.compare(&v), core::cmp::Ordering::Less) {
                            proof {
                                assert forall|j: int|
                                    0 <= j < i && #[trigger] candidate(tv[j]) is Some implies version_le(
                                        candidate(tv[j])->0,
                                        v,
                                    ) by {
                                    lemma_version_order_transitive(candidate(tv[j])->0, b, v);
                                }
                            }
                            best = Some(v);
                        } else {
                            proof {
                                lemma_version_order_total(b, v);
                            }
                        }
                    },
                }
            }
        }
        i = i + 1;
    }
    proof {
        if has_candidate(tv) {
            let j = choose|j: int| 0 <= j < tv.len() && #[trigger] candidate(tv[j]) is Some;
            assert(candidate(tv[j]) is Some);
        }
    }
    best
}

/// The outcome for a task at `current` against the newest release.
pub fn freshness(current: &Version, newest: &Version) -> (r: UpdatedVersion)
    ensures
        r@ == freshness_spec(*current, *newest),
{
    if matches!(current.compare(newest), core::cmp::Ordering::Less) {
        UpdatedVersion::OutOfDate { current: current.render(), newest: newest.render() }
    } else {
        UpdatedVersion::UpToDate { version: current.render() }
    }
}

/// Classifies a task at `current` against the tags that its registry lists;
/// `None` where no tag offers a candidate.
pub fn resolve(current: &Version, tags: &Vec<String>) -> (r: Option<UpdatedVersion>)
    ensures
        r is None <==> !has_candidate(tag_views(tags@)),
        r matches Some(u) ==> exists|m: Version|
            is_newest(tag_views(tags@), m) && u@ == #[trigger] freshness_spec(*current, m),
{
    match newest_version(tags) {
        None => None,
        Some(m) => {
            let u = freshness(current, &m);
            assert(is_newest(tag_views(tags@), m) && u@ == freshness_spec(*current, m));
            Some(u)
        },
    }
}

/// The greatest candidate is unique, so `resolve` has one outcome.
pub proof fn lemma_newest_unique(tags: Seq<Seq<char>>, m1: Version, m2: Version)
    requires
        is_newest(tags, m1),
        is_newest(tags, m2),
    ensures
        m1 == m2,
{
    let i = choose|i: int| 0 <= i < tags.len() && #[trigger] candidate(tags[i]) == Some(m1);
    let j = choose|j: int| 0 <= j < tags.len() && #[trigger] candidate(tags[j]) == Some(m2);
    assert(version_le(m1, m2));
    assert(version_le(m2, m1));
    lemma_version_order_total(m1, m2);
}

} // verus!
