//! Image references of the form `[registry/][namespace/]name[:tag]`.
use vstd::prelude::*;

use crate::text::{
    chars_of, contains_char, find_last, last_index, lemma_contains_concat,
    lemma_last_index, lemma_last_index_before, lemma_split_after, lemma_split_fields_free,
    lemma_split_single, owned,
    split_fields, split_on, string_of, views_of,
};
use crate::version::{RawTag, LATEST_TAG};

verus! {

/// The registry that serves images whose reference names no host.
pub const DEFAULT_REGISTRY: &'static str = "registry.hub.docker.com";

/// A parsed image reference.
#[derive(Debug, PartialEq)]
pub struct Image {
    pub registry: String,
    pub namespace: Option<String>,
    pub name: String,
    pub tag: RawTag,
}

/// What an image reference denotes, as character sequences.
pub struct ImageView {
    pub registry: Seq<char>,
    pub namespace: Option<Seq<char>>,
    pub name: Seq<char>,
    pub tag: Seq<char>,
}

pub open spec fn opt_view(o: Option<String>) -> Option<Seq<char>> {
    match o {
        Some(s) => Some(s@),
        None => None,
    }
}

impl View for Image {
    type V = ImageView;

    open spec fn view(&self) -> ImageView {
        ImageView {
            registry: self.registry@,
            namespace: opt_view(self.namespace),
            name: self.name@,
            tag: self.tag@,
        }
    }
}

/// The part of a reference before its last `:`, and the tag after it.
pub open spec fn name_and_tag(raw: Seq<char>) -> (Seq<char>, Seq<char>) {
    let c = last_index(raw, ':');
    if c < 0 {
        (raw, LATEST_TAG@)
    } else {
        (raw.take(c), raw.skip(c + 1))
    }
}

/// Whether the first path segment names a registry host (it holds a `.`).
pub open spec fn names_host(parts: Seq<Seq<char>>) -> bool {
    parts[0].contains('.')
}

/// The path segments that follow the registry host, if any.
pub open spec fn path_segments(raw: Seq<char>) -> Seq<Seq<char>> {
    let parts = split_on(name_and_tag(raw).0, '/');
    if names_host(parts) {
        parts.drop_first()
    } else {
        parts
    }
}

/// The meaning of an image reference: a `$` anywhere, or a count of path
/// segments after the host other than one or two, rejects the reference.
pub open spec fn parse_image_spec(raw: Seq<char>) -> Result<ImageView, Seq<char>> {
    if raw.contains('$') {
        Err(raw)
    } else {
        let parts = split_on(name_and_tag(raw).0, '/');
        let registry = if names_host(parts) { parts[0] } else { DEFAULT_REGISTRY@ };
        let rest = path_segments(raw);
        let tag = name_and_tag(raw).1;
        if rest.len() == 1 {
            Ok(ImageView { registry, namespace: None, name: rest[0], tag })
        } else if rest.len() == 2 {
            Ok(ImageView { registry, namespace: Some(rest[0]), name: rest[1], tag })
        } else {
            Err(raw)
        }
    }
}

impl Image {
    /// Parses an image reference; a rejected reference is handed back as it was.
    pub fn parse(raw: String) -> (r: Result<Image, String>)
        ensures
            match r {
                Ok(img) => parse_image_spec(raw@) == Ok::<ImageView, Seq<char>>(img@),
                Err(e) => e == raw && parse_image_spec(raw@) == Err::<ImageView, Seq<char>>(raw@),
            },
    {
        let chars = chars_of(raw.as_str());
        if contains_char(&chars, '$') {
            return Err(raw);
        }
        proof {
            lemma_last_index(raw@, ':');
        }
        let (name_part, tag) = match find_last(&chars, ':') {
            Some(c) => {
                proof {
                    lemma_last_index(chars@, ':');
                }
                let len = chars.len();
                assert(c < len);
                let t = string_of(&chars, c + 1, chars.len());
                proof {
                    assert(t@ =~= raw@.skip(c + 1));
                }
                (crate::text::slice_of(&chars, 0, c), RawTag::new(t.as_str()))
            },
            None => (chars.clone(), RawTag::new(LATEST_TAG)),
        };
        proof {
            assert(name_part@ =~= name_and_tag(raw@).0);
        }
        let parts = split_fields(&name_part, '/');
        let ghost sp = split_on(name_and_tag(raw@).0, '/');
        assert(views_of(parts@) == sp);
        assert(sp.len() >= 1);
        assert(parts@[0]@ == sp[0]);
        let explicit = contains_char(&parts[0], '.');
        let registry = if explicit {
            string_of(&parts[0], 0, parts[0].len())
        } else {
            owned(DEFAULT_REGISTRY)
        };
        let skip: usize = if explicit { 1 } else { 0 };
        let n = parts.len() - skip;
        let ghost rest = path_segments(raw@);
        assert(rest.len() == n);
        assert(forall|k: int| 0 <= k < n ==> rest[k] == #[trigger] parts@[k + skip]@);
        assert(explicit == names_host(sp));
        assert(registry@ == (if names_host(sp) { sp[0] } else { DEFAULT_REGISTRY@ }));
        assert(tag@ == name_and_tag(raw@).1);
        assert(!raw@.contains('$'));
        if n == 1 {
            let name = string_of(&parts[skip], 0, parts[skip].len());
            proof {
                assert(name@ =~= rest[0]);
            }
            Ok(Image { registry, namespace: None, name, tag })
        } else if n == 2 {
            let ns = string_of(&parts[skip], 0, parts[skip].len());
            let name = string_of(&parts[skip + 1], 0, parts[skip + 1].len());
            proof {
                assert(ns@ =~= rest[0]);
                assert(name@ =~= rest[1]);
            }
            Ok(Image { registry, namespace: Some(ns), name, tag })
        } else {
            Err(raw)
        }
    }
}

/// The reference text `registry/[namespace/]name:tag` of an image.
pub open spec fn image_text(v: ImageView) -> Seq<char> {
    let path = match v.namespace {
        Some(ns) => ns.push('/') + v.name,
        None => v.name,
    };
    v.registry.push('/') + path.push(':') + v.tag
}

/// A path segment: no path separator and no template marker.
pub open spec fn plain_segment(s: Seq<char>) -> bool {
    !s.contains('/') && !s.contains('$')
}

/// An image whose reference text reads back as itself: its registry names a
/// host, its segments are plain, and its tag holds no `:` or `$`.
pub open spec fn well_formed_image(v: ImageView) -> bool {
    &&& v.registry.contains('.')
    &&& plain_segment(v.registry)
    &&& plain_segment(v.name)
    &&& match v.namespace {
        Some(ns) => plain_segment(ns),
        None => true,
    }
    &&& !v.tag.contains(':')
    &&& !v.tag.contains('$')
}

/// Parsing the text of a well-formed image gives back its four fields.
pub proof fn lemma_image_round_trip(v: ImageView)
    requires
        well_formed_image(v),
    ensures
        parse_image_spec(image_text(v)) == Ok::<ImageView, Seq<char>>(v),
{
    let path = match v.namespace {
        Some(ns) => ns.push('/') + v.name,
        None => v.name,
    };
    let head = v.registry.push('/') + path;
    let raw = image_text(v);
    assert(raw =~= head.push(':') + v.tag);
    // no `$` anywhere
    lemma_contains_concat(v.registry, seq!['/'], '$');
    assert(v.registry.push('/') =~= v.registry + seq!['/']);
    assert(!seq!['/'].contains('$')) by {
        if seq!['/'].contains('$') {
            assert(seq!['/'][0] == '/');
        }
    }
    assert(!seq![':'].contains('$')) by {
        if seq![':'].contains('$') {
            assert(seq![':'][0] == ':');
        }
    }
    assert(!seq![':'].contains('/')) by {
        if seq![':'].contains('/') {
            assert(seq![':'][0] == ':');
        }
    }
    assert(!path.contains('$')) by {
        match v.namespace {
            Some(ns) => {
                lemma_contains_concat(ns, seq!['/'], '$');
                assert(ns.push('/') =~= ns + seq!['/']);
                lemma_contains_concat(ns.push('/'), v.name, '$');
            },
            None => {},
        }
    }
    lemma_contains_concat(v.registry.push('/'), path, '$');
    lemma_contains_concat(head, seq![':'], '$');
    assert(head.push(':') =~= head + seq![':']);
    lemma_contains_concat(head.push(':'), v.tag, '$');
    // the tag follows the last `:`
    lemma_last_index_before(head, ':', v.tag);
    assert(raw.take(head.len() as int) =~= head);
    assert(raw.skip(head.len() as int + 1) =~= v.tag);
    assert(name_and_tag(raw) == (head, v.tag));
    // the path segments
    lemma_split_after(v.registry, '/', path);
    match v.namespace {
        Some(ns) => {
            lemma_split_after(ns, '/', v.name);
            lemma_split_single(v.name, '/');
            assert(split_on(path, '/') =~= seq![ns, v.name]);
        },
        None => {
            lemma_split_single(v.name, '/');
        },
    }
    let parts = split_on(head, '/');
    assert(parts[0] == v.registry);
    assert(path_segments(raw) =~= split_on(path, '/'));
}

/// A reference with a `$`, or with other than one or two path segments after
/// its host, is rejected as it was given.
pub proof fn lemma_image_rejects(raw: Seq<char>)
    requires
        raw.contains('$') || path_segments(raw).len() == 0 || path_segments(raw).len() > 2,
    ensures
        parse_image_spec(raw) == Err::<ImageView, Seq<char>>(raw),
{
}

/// Rebuilding the text of any image that a reference parses to, and parsing
/// that text, gives the same four fields.
pub proof fn lemma_parse_then_rebuild(raw: Seq<char>)
    requires
        parse_image_spec(raw) is Ok,
    ensures
        parse_image_spec(image_text(parse_image_spec(raw)->Ok_0)) == parse_image_spec(raw),
{
    let v = parse_image_spec(raw)->Ok_0;
    let (head, tag) = name_and_tag(raw);
    let c = last_index(raw, ':');
    lemma_last_index(raw, ':');
    reveal_strlit("latest");
    reveal_strlit("registry.hub.docker.com");
    // the tag holds no `:` and no `$`
    if c < 0 {
        assert(!LATEST_TAG@.contains(':')) by {
            if LATEST_TAG@.contains(':') {
                let j = choose|j: int| 0 <= j < LATEST_TAG@.len() && LATEST_TAG@[j] == ':';
            }
        }
        assert(!LATEST_TAG@.contains('$')) by {
            if LATEST_TAG@.contains('$') {
                let j = choose|j: int| 0 <= j < LATEST_TAG@.len() && LATEST_TAG@[j] == '$';
            }
        }
        assert(head == raw);
    } else {
        assert(!tag.contains(':')) by {
            if tag.contains(':') {
                let j = choose|j: int| 0 <= j < tag.len() && tag[j] == ':';
                assert(raw[c + 1 + j] == ':');
            }
        }
        assert(!tag.contains('$')) by {
            if tag.contains('$') {
                let j = choose|j: int| 0 <= j < tag.len() && tag[j] == '$';
                assert(raw[c + 1 + j] == '$');
            }
        }
        assert(!head.contains('$')) by {
            if head.contains('$') {
                let j = choose|j: int| 0 <= j < head.len() && head[j] == '$';
                assert(raw[j] == '$');
            }
        }
    }
    // every segment is plain
    let parts = split_on(head, '/');
    lemma_split_fields_free(head, '/', '$');
    assert(parts.len() >= 1);
    let rest = path_segments(raw);
    assert(forall|k: int| 0 <= k < rest.len() ==> plain_segment(#[trigger] rest[k])) by {
        assert forall|k: int| 0 <= k < rest.len() implies plain_segment(#[trigger] rest[k]) by {
            if names_host(parts) {
                assert(rest[k] == parts[k + 1]);
            } else {
                assert(rest[k] == parts[k]);
            }
        }
    }
    // the registry names a host
    if names_host(parts) {
        assert(plain_segment(parts[0]));
    } else {
        let d = DEFAULT_REGISTRY@;
        assert(d[8] == '.');
        assert(!d.contains('/')) by {
            if d.contains('/') {
                let j = choose|j: int| 0 <= j < d.len() && d[j] == '/';
            }
        }
        assert(!d.contains('$')) by {
            if d.contains('$') {
                let j = choose|j: int| 0 <= j < d.len() && d[j] == '$';
            }
        }
    }
    assert(well_formed_image(v));
    lemma_image_round_trip(v);
}

} // verus!
