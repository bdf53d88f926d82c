//! The structured image reference, its parser and its canonical form.
use vstd::prelude::*;
use crate::text::{find_char, has_char, lemma_find_char, position_of, same_text};

verus! {

/// A parsed image reference.
#[derive(Debug, Clone, PartialEq, Eq)]
pub struct ImageRef {
    /// The registry host; parsing always fills it, with Docker Hub by default.
    pub registry: Option<String>,
    /// The image name, possibly with user or organization segments.
    pub image: String,
    /// The tag after `:`; set by parsing unless a digest is present.
    pub tag: Option<String>,
    /// The digest after `@`, unvalidated. Conflicts with `tag`.
    pub hash: Option<String>,
}

/// The value of an `ImageRef`, with each text field as a character sequence.
pub struct ImageRefView {
    pub registry: Option<Seq<char>>,
    pub image: Seq<char>,
    pub tag: Option<Seq<char>>,
    pub hash: Option<Seq<char>>,
}

pub open spec fn opt_view(o: Option<String>) -> Option<Seq<char>> {
    match o {
        Some(s) => Some(s@),
        None => None,
    }
}

impl View for ImageRef {
    type V = ImageRefView;

    open spec fn view(&self) -> ImageRefView {
        ImageRefView {
            registry: opt_view(self.registry),
            image: self.image@,
            tag: opt_view(self.tag),
            hash: opt_view(self.hash),
        }
    }
}

/// The registry assumed when a reference names none.
pub open spec fn default_registry() -> Seq<char> {
    seq!['d', 'o', 'c', 'k', 'e', 'r', '.', 'i', 'o']
}

/// The namespace given to single-segment images on the default registry.
pub open spec fn default_namespace() -> Seq<char> {
    seq!['l', 'i', 'b', 'r', 'a', 'r', 'y', '/']
}

/// The tag assumed when a reference has neither tag nor digest.
pub open spec fn default_tag() -> Seq<char> {
    seq!['l', 'a', 't', 'e', 's', 't']
}

/// The one registry name recognized without a `.` or a `:`.
pub open spec fn localhost() -> Seq<char> {
    seq!['l', 'o', 'c', 'a', 'l', 'h', 'o', 's', 't']
}

/// A leading segment names a registry host when it is `localhost` or holds a
/// `.` or a `:`.
pub open spec fn spec_is_registry(t: Seq<char>) -> bool {
    t == localhost() || t.contains('.') || t.contains(':')
}

/// The registry of a reference and the text that follows it.
pub open spec fn split_registry(s: Seq<char>) -> (Seq<char>, Seq<char>) {
    match find_char(s, '/') {
        Some(p) => if spec_is_registry(s.take(p)) {
            (s.take(p), s.skip(p + 1))
        } else {
            (default_registry(), s)
        },
        None => (default_registry(), s),
    }
}

/// The image part after the registry, with the default namespace added where
/// it applies.
pub open spec fn image_full(s: Seq<char>) -> Seq<char> {
    let (reg, rest) = split_registry(s);
    if !rest.contains('/') && reg == default_registry() {
        default_namespace() + rest
    } else {
        rest
    }
}

/// How a reference is parsed: registry, then `name@digest` or `name[:tag]`.
pub open spec fn spec_parse(s: Seq<char>) -> ImageRefView {
    let reg = split_registry(s).0;
    let full = image_full(s);
    match find_char(full, '@') {
        Some(a) => ImageRefView {
            registry: Some(reg),
            image: full.take(a),
            tag: None,
            hash: Some(full.skip(a + 1)),
        },
        None => match find_char(full, ':') {
            Some(c) => ImageRefView {
                registry: Some(reg),
                image: full.take(c),
                tag: Some(full.skip(c + 1)),
                hash: None,
            },
            None => ImageRefView {
                registry: Some(reg),
                image: full,
                tag: Some(default_tag()),
                hash: None,
            },
        },
    }
}

/// The canonical text of a reference.
pub open spec fn spec_serialize(r: ImageRefView) -> Seq<char> {
    let head = match r.registry {
        Some(reg) => reg + seq!['/'],
        None => Seq::empty(),
    };
    let tail = match r.tag {
        Some(t) => seq![':'] + t,
        None => match r.hash {
            Some(h) => seq!['@'] + h,
            None => Seq::empty(),
        },
    };
    head + r.image + tail
}

/// A character occurs in a concatenation exactly when it occurs in one part.
proof fn lemma_contains_concat(a: Seq<char>, b: Seq<char>, c: char)
    ensures
        (a + b).contains(c) == (a.contains(c) || b.contains(c)),
{
    if (a + b).contains(c) {
        let i = choose|i: int| 0 <= i < (a + b).len() && (a + b)[i] == c;
        if i < a.len() {
            assert(a[i] == c);
        } else {
            assert(b[i - a.len()] == c);
        }
    }
    if a.contains(c) {
        let i = choose|i: int| 0 <= i < a.len() && a[i] == c;
        assert((a + b)[i] == c);
    }
    if b.contains(c) {
        let i = choose|i: int| 0 <= i < b.len() && b[i] == c;
        assert((a + b)[a.len() + i] == c);
    }
}

/// The text after the registry in the canonical form: the image part as
/// parsed, with `:latest` added when it had neither tag nor digest.
proof fn lemma_serialized_rest(s: Seq<char>)
    ensures
        ({
            let v = spec_parse(s);
            let full = image_full(s);
            let rest = spec_serialize(v).skip(split_registry(s).0.len() as int + 1);
            &&& spec_serialize(v) =~= split_registry(s).0 + seq!['/'] + rest
            &&& (find_char(full, '@') is Some || find_char(full, ':') is Some) ==> rest == full
            &&& (find_char(full, '@') is None && find_char(full, ':') is None) ==> rest == full
                + seq![':'] + default_tag()
        }),
{
    let v = spec_parse(s);
    let reg = split_registry(s).0;
    let full = image_full(s);
    lemma_find_char(full, '@');
    lemma_find_char(full, ':');
    let tail = match v.tag {
        Some(t) => seq![':'] + t,
        None => match v.hash {
            Some(h) => seq!['@'] + h,
            None => Seq::empty(),
        },
    };
    let rest = v.image + tail;
    assert(spec_serialize(v) =~= reg + seq!['/'] + rest);
    assert(spec_serialize(v).skip(reg.len() as int + 1) =~= rest);
    match find_char(full, '@') {
        Some(a) => {
            assert(rest =~= full);
        },
        None => match find_char(full, ':') {
            Some(c) => {
                assert(rest =~= full);
            },
            None => {
                assert(rest =~= full + seq![':'] + default_tag());
            },
        },
    }
}

/// Parsing the canonical text of a parsed reference gives back the same
/// reference: once the defaults are filled in, parsing again keeps them.
pub proof fn lemma_parse_round_trip(s: Seq<char>)
    ensures
        spec_parse(spec_serialize(spec_parse(s))) == spec_parse(s),
{
    let v = spec_parse(s);
    let reg = split_registry(s).0;
    let full = image_full(s);
    let t = spec_serialize(v);
    lemma_serialized_rest(s);
    let rest = t.skip(reg.len() as int + 1);
    lemma_find_char(s, '/');
    lemma_find_char(full, '@');
    lemma_find_char(full, ':');
    let suffix = seq![':'] + default_tag();
    assert(!suffix.contains('/') && !suffix.contains('@'));
    lemma_contains_concat(full, suffix, '/');
    lemma_contains_concat(full, suffix, '@');
    lemma_contains_concat(full, suffix, ':');
    assert(!default_registry().contains('/'));
    assert(default_registry()[6] == '.');
    assert(default_namespace()[7] == '/');
    // The registry holds no `/` and is recognized as one.
    assert(!reg.contains('/') && spec_is_registry(reg)) by {
        match find_char(s, '/') {
            Some(p) => {
                if spec_is_registry(s.take(p)) {
                    assert(reg == s.take(p));
                }
            },
            None => {},
        }
    }
    // The image part holds a `/` unless the registry is not the default.
    assert(full.contains('/') || reg != default_registry()) by {
        let r0 = split_registry(s).1;
        if !r0.contains('/') && reg == default_registry() {
            assert(full == default_namespace() + r0);
            assert(full[7] == '/');
        }
    }
    assert(rest.contains('/') == full.contains('/')) by {
        if find_char(full, '@') is None && find_char(full, ':') is None {
            assert(rest == full + suffix);
        } else {
            assert(rest == full);
        }
    }
    // The first `/` of the canonical text ends the registry.
    assert(t[reg.len() as int] == '/');
    assert(t.take(reg.len() as int) =~= reg);
    crate::text::lemma_find_char_at(t, '/', reg.len() as int);
    assert(split_registry(t) == (reg, rest));
    assert(image_full(t) == rest);
    if find_char(full, '@') is None && find_char(full, ':') is None {
        assert(rest =~= full + suffix);
        lemma_find_char(rest, '@');
        assert(rest[full.len() as int] == ':');
        assert(rest.take(full.len() as int) =~= full);
        crate::text::lemma_find_char_at(rest, ':', full.len() as int);
        assert(rest.skip(full.len() as int + 1) =~= default_tag());
    }
}

/// Whether `token`, the segment before the first `/`, names a registry host.
fn is_registry(token: &str) -> (r: bool)
    ensures
        r == spec_is_registry(token@),
{
    proof {
        reveal_strlit("localhost");
        assert("localhost"@ =~= localhost());
    }
    same_text(token, "localhost") || has_char(token, '.') || has_char(token, ':')
}

fn text_of(s: &str) -> (r: String)
    ensures
        r@ == s@,
{
    String::from_str(s)
}

impl ImageRef {
    /// Parses a reference. Parsing never fails: malformed text gives a
    /// best-effort structure.
    pub fn parse(s: &str) -> (r: ImageRef)
        ensures
            r@ == spec_parse(s@),
    {
        proof {
            reveal_strlit("docker.io");
            reveal_strlit("library/");
            reveal_strlit("latest");
            assert("docker.io"@ =~= default_registry());
            assert("library/"@ =~= default_namespace());
            assert("latest"@ =~= default_tag());
        }
        let n = s.unicode_len();
        let slash = position_of(s, '/');
        let mut explicit = false;
        let mut registry = text_of("docker.io");
        let mut rest = text_of(s);
        if let Some(p) = slash {
            let first = s.substring_char(0, p);
            if is_registry(first) {
                explicit = true;
                registry = text_of(first);
                rest = text_of(s.substring_char(p + 1, n));
                assert(rest@ =~= s@.skip(p + 1));
                assert(registry@ =~= s@.take(p as int));
            }
        }
        assert((registry@, rest@) == split_registry(s@));
        let is_default = !explicit || same_text(registry.as_str(), "docker.io");
        let full = if !has_char(rest.as_str(), '/') && is_default {
            text_of("library/").concat(rest.as_str())
        } else {
            rest
        };
        assert(full@ == image_full(s@));
        let len = full.as_str().unicode_len();
        match position_of(full.as_str(), '@') {
            Some(a) => {
                let image = text_of(full.as_str().substring_char(0, a));
                let hash = text_of(full.as_str().substring_char(a + 1, len));
                assert(image@ =~= full@.take(a as int));
                assert(hash@ =~= full@.skip(a + 1));
                ImageRef { registry: Some(registry), image, tag: None, hash: Some(hash) }
            },
            None => match position_of(full.as_str(), ':') {
                Some(c) => {
                    let image = text_of(full.as_str().substring_char(0, c));
                    let tag = text_of(full.as_str().substring_char(c + 1, len));
                    assert(image@ =~= full@.take(c as int));
                    assert(tag@ =~= full@.skip(c + 1));
                    ImageRef { registry: Some(registry), image, tag: Some(tag), hash: None }
                },
                None => ImageRef {
                    registry: Some(registry),
                    image: full,
                    tag: Some(text_of("latest")),
                    hash: None,
                },
            },
        }
    }

    /// The canonical text: `registry/` if a registry is set, the image, then
    /// `:tag`, or else `@digest`.
    pub fn to_string(&self) -> (r: String)
        ensures
            r@ == spec_serialize(self@),
    {
        proof {
            reveal_strlit("/");
            reveal_strlit(":");
            reveal_strlit("@");
        }
        let mut out = String::new();
        if let Some(reg) = &self.registry {
            out.append(reg.as_str());
            out.append("/");
        }
        out.append(self.image.as_str());
        if let Some(t) = &self.tag {
            out.append(":");
            out.append(t.as_str());
        } else if let Some(h) = &self.hash {
            out.append("@");
            out.append(h.as_str());
        }
        assert(out@ =~= spec_serialize(self@));
        out
    }
}

} // verus!
