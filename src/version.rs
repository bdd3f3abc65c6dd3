//! Tag versions: parsing with partial specificity, and their total order.
use vstd::prelude::*;

use crate::text::{
    chars_of, decimal, owned, parse_usize, parse_usize_spec, push_decimal, slice_of,
    split_fields, split_on, views_of,
};

verus! {

/// The floating tag, which follows whatever was published last.
pub const LATEST_TAG: &'static str = "latest";

/// A tag as it stands in an image reference or in a registry's tag list.
#[derive(Debug, PartialEq)]
pub struct RawTag {
    tag: String,
}

impl View for RawTag {
    type V = Seq<char>;

    closed spec fn view(&self) -> Seq<char> {
        self.tag@
    }
}

impl RawTag {
    pub fn new(t: &str) -> (r: RawTag)
        ensures
            r@ == t@,
    {
        RawTag { tag: owned(t) }
    }

    /// The tag's text.
    pub fn as_str(&self) -> (r: &str)
        ensures
            r@ == self@,
    {
        self.tag.as_str()
    }
}

/// A version read from a tag. `minor` and `patch` are absent where the tag
/// leaves them out (`1`, `1.2`) or where they are not numbers.
#[derive(Debug, Clone, Copy, PartialEq, Eq, Structural, Ord)]
pub enum Version {
    Latest,
    Semantic { major: usize, minor: Option<usize>, patch: Option<usize> },
}

/// The part of a tag that holds its numbers: without a single leading `v`.
pub open spec fn numeric_part(tag: Seq<char>) -> Seq<char> {
    if tag.len() > 0 && tag[0] == 'v' {
        tag.drop_first()
    } else {
        tag
    }
}

/// What a tag means as a version. `latest` is exactly the floating tag; else
/// the major number must be a number, while a minor or patch component that
/// is not one counts as absent.
pub open spec fn parse_version_spec(tag: Seq<char>) -> Result<Version, ()> {
    if tag == LATEST_TAG@ {
        Ok(Version::Latest)
    } else {
        let parts = split_on(numeric_part(tag), '.');
        match parse_usize_spec(parts[0]) {
            None => Err(()),
            Some(major) => Ok(
                Version::Semantic {
                    major,
                    minor: if parts.len() > 1 { parse_usize_spec(parts[1]) } else { None },
                    patch: if parts.len() > 2 { parse_usize_spec(parts[2]) } else { None },
                },
            ),
        }
    }
}

pub open spec fn is_fully_qualified(v: Version) -> bool {
    match v {
        Version::Latest => true,
        Version::Semantic { minor, patch, .. } => minor is Some && patch is Some,
    }
}

pub open spec fn num_cmp(a: int, b: int) -> core::cmp::Ordering {
    if a < b {
        core::cmp::Ordering::Less
    } else if a == b {
        core::cmp::Ordering::Equal
    } else {
        core::cmp::Ordering::Greater
    }
}

/// Absent sorts before present; two present components by their value.
pub open spec fn component_cmp(a: Option<usize>, b: Option<usize>) -> core::cmp::Ordering {
    match (a, b) {
        (None, None) => core::cmp::Ordering::Equal,
        (None, Some(_)) => core::cmp::Ordering::Less,
        (Some(_), None) => core::cmp::Ordering::Greater,
        (Some(x), Some(y)) => num_cmp(x as int, y as int),
    }
}

pub open spec fn then_cmp(first: core::cmp::Ordering, next: core::cmp::Ordering) -> core::cmp::Ordering {
    if first == core::cmp::Ordering::Equal {
        next
    } else {
        first
    }
}

/// The order of versions: `Latest` before every semantic version, which
/// compare by major, minor and patch in turn.
pub open spec fn version_cmp(a: Version, b: Version) -> core::cmp::Ordering {
    match (a, b) {
        (Version::Latest, Version::Latest) => core::cmp::Ordering::Equal,
        (Version::Latest, _) => core::cmp::Ordering::Less,
        (_, Version::Latest) => core::cmp::Ordering::Greater,
        (
            Version::Semantic { major: a1, minor: a2, patch: a3 },
            Version::Semantic { major: b1, minor: b2, patch: b3 },
        ) => then_cmp(
            num_cmp(a1 as int, b1 as int),
            then_cmp(component_cmp(a2, b2), component_cmp(a3, b3)),
        ),
    }
}

pub open spec fn version_le(a: Version, b: Version) -> bool {
    version_cmp(a, b) != core::cmp::Ordering::Greater
}

pub open spec fn version_lt(a: Version, b: Version) -> bool {
    version_cmp(a, b) == core::cmp::Ordering::Less
}

/// The text of a version: the floating tag, or its numbers joined by `.`,
/// up to the first absent one.
pub open spec fn render_spec(v: Version) -> Seq<char> {
    match v {
        Version::Latest => LATEST_TAG@,
        Version::Semantic { major, minor, patch } => decimal(major as nat) + match minor {
            None => Seq::<char>::empty(),
            Some(m) => seq!['.'] + decimal(m as nat) + match patch {
                None => Seq::<char>::empty(),
                Some(p) => seq!['.'] + decimal(p as nat),
            },
        },
    }
}

fn usize_cmp(a: usize, b: usize) -> (r: core::cmp::Ordering)
    ensures
        r == num_cmp(a as int, b as int),
{
    if a < b {
        core::cmp::Ordering::Less
    } else if a == b {
        core::cmp::Ordering::Equal
    } else {
        core::cmp::Ordering::Greater
    }
}

fn component_compare(a: Option<usize>, b: Option<usize>) -> (r: core::cmp::Ordering)
    ensures
        r == component_cmp(a, b),
{
    match (a, b) {
        (None, None) => core::cmp::Ordering::Equal,
        (None, Some(_)) => core::cmp::Ordering::Less,
        (Some(_), None) => core::cmp::Ordering::Greater,
        (Some(x), Some(y)) => usize_cmp(x, y),
    }
}

impl Version {
    /// Whether every component is present, so that the tag names one release
    /// and not a moving alias.
    pub fn fully_qualified(&self) -> (r: bool)
        ensures
            r == is_fully_qualified(*self),
    {
        match self {
            Version::Latest => true,
            Version::Semantic { minor, patch, .. } => minor.is_some() && patch.is_some(),
        }
    }

    /// Compares two versions in their total order.
    pub fn compare(&self, other: &Version) -> (r: core::cmp::Ordering)
        ensures
            r == version_cmp(*self, *other),
    {
        match (self, other) {
            (Version::Latest, Version::Latest) => core::cmp::Ordering::Equal,
            (Version::Latest, _) => core::cmp::Ordering::Less,
            (_, Version::Latest) => core::cmp::Ordering::Greater,
            (
                Version::Semantic { major: a1, minor: a2, patch: a3 },
                Version::Semantic { major: b1, minor: b2, patch: b3 },
            ) => {
                match usize_cmp(*a1, *b1) {
                    core::cmp::Ordering::Equal => {},
                    c => return c,
                }
                match component_compare(*a2, *b2) {
                    core::cmp::Ordering::Equal => {},
                    c => return c,
                }
                component_compare(*a3, *b3)
            },
        }
    }

    /// The version's text: `latest`, or `major[.minor[.patch]]`.
    pub fn render(&self) -> (r: String)
        ensures
            r@ == render_spec(*self),
    {
        match self {
            Version::Latest => owned(LATEST_TAG),
            Version::Semantic { major, minor, patch } => {
                let mut out = String::new();
                push_decimal(&mut out, *major);
                if let Some(m) = minor {
                    out.push('.');
                    push_decimal(&mut out, *m);
                    if let Some(p) = patch {
                        out.push('.');
                        push_decimal(&mut out, *p);
                    }
                }
                proof {
                    assert(out@ =~= render_spec(*self));
                }
                out
            },
        }
    }
}

impl PartialOrd for Version {
    fn partial_cmp(&self, other: &Version) -> (r: Option<core::cmp::Ordering>) {
        Some(self.compare(other))
    }
}

impl vstd::std_specs::cmp::PartialOrdSpecImpl for Version {
    open spec fn obeys_partial_cmp_spec() -> bool {
        true
    }

    open spec fn partial_cmp_spec(&self, other: &Version) -> Option<core::cmp::Ordering> {
        Some(version_cmp(*self, *other))
    }
}

impl RawTag {
    /// Reads the tag as a version.
    pub fn parse_version(&self) -> (r: Result<Version, ()>)
        ensures
            r == parse_version_spec(self@),
    {
        if self.tag == owned(LATEST_TAG) {
            return Ok(Version::Latest);
        }
        let chars = chars_of(self.tag.as_str());
        let numeric = if chars.len() > 0 && chars[0] == 'v' {
            slice_of(&chars, 1, chars.len())
        } else {
            chars
        };
        proof {
            assert(numeric@ =~= numeric_part(self@));
        }
        let parts = split_fields(&numeric, '.');
        let ghost sp = split_on(numeric_part(self@), '.');
        assert(views_of(parts@) == sp);
        assert(sp.len() >= 1);
        assert(forall|k: int| 0 <= k < sp.len() ==> #[trigger] parts@[k]@ == sp[k]);
        let major = match parse_usize(&parts[0]) {
            Some(m) => m,
            None => return Err(()),
        };
        let minor = if parts.len() > 1 { parse_usize(&parts[1]) } else { None };
        let patch = if parts.len() > 2 { parse_usize(&parts[2]) } else { None };
        Ok(Version::Semantic { major, minor, patch })
    }
}

/// The order is total: of `a < b`, `a == b` and `b < a` exactly one holds.
pub proof fn lemma_version_order_total(a: Version, b: Version)
    ensures
        version_lt(a, b) || a == b || version_lt(b, a),
        !(version_lt(a, b) && a == b),
        !(version_lt(a, b) && version_lt(b, a)),
        !(a == b && version_lt(b, a)),
        version_cmp(a, b) == core::cmp::Ordering::Equal <==> a == b,
{
}

/// The order is transitive: `a <= b` and `b <= c` give `a <= c`.
pub proof fn lemma_version_order_transitive(a: Version, b: Version, c: Version)
    requires
        version_le(a, b),
        version_le(b, c),
    ensures
        version_le(a, c),
        version_lt(a, b) || version_lt(b, c) ==> version_lt(a, c),
{
}

/// `Latest` sorts before every semantic version.
pub proof fn lemma_latest_sorts_first(v: Version)
    requires
        v is Semantic,
    ensures
        version_lt(Version::Latest, v),
        !version_le(v, Version::Latest),
{
}

} // verus!
