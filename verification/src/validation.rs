//! Checks on what clients send: identifiers, file names, MIME types, tags,
//! sizes, and storage paths.
use vstd::prelude::*;
use vstd::utf8::encode_utf8;
use crate::text::{has_sub, has_prefix, has_char, str_contains, str_starts_with, chars_of, string_from_chars};

verus! {

/// The largest file accepted, in bytes (100 MiB).
pub const MAX_FILE_SIZE: u64 = 104_857_600;

/// The most tags a resource may carry.
pub const MAX_TAGS: usize = 20;

/// The longest tag accepted, in bytes of UTF-8.
pub const MAX_TAG_BYTES: usize = 50;

/// The pattern of a canonical UUID: lower-case hexadecimal digits in groups
/// of 8, 4, 4, 4 and 12, joined by hyphens.
pub const UUID_PATTERN: &'static str = "^[0-9a-f]{8}-[0-9a-f]{4}-[0-9a-f]{4}-[0-9a-f]{4}-[0-9a-f]{12}$";

/// `c` is a lower-case hexadecimal digit.
pub open spec fn is_lower_hex(c: char) -> bool {
    ('0' <= c && c <= '9') || ('a' <= c && c <= 'f')
}

/// `s` is a canonical UUID: 36 characters, hyphens at positions 8, 13, 18
/// and 23, and lower-case hexadecimal digits everywhere else.
pub open spec fn uuid_shaped(s: Seq<char>) -> bool {
    &&& s.len() == 36
    &&& forall|i: int| 0 <= i < 36 ==> if i == 8 || i == 13 || i == 18 || i == 23 {
        s[i] == '-'
    } else {
        is_lower_hex(#[trigger] s[i])
    }
}

/// `Regex::new(pattern)` then `is_match(text)` (crate `regex`), for the UUID
/// pattern: the pattern is anchored at both ends of the text (`$` matches
/// only at its end without the multi-line flag), so the text matches exactly
/// when it has the shape `uuid_shaped` describes.
#[verifier::external_body]
fn regex_is_match(pattern: &str, text: &str) -> (r: bool)
    requires
        pattern@ == UUID_PATTERN@,
    ensures
        r == uuid_shaped(text@),
{
    match regex::Regex::new(pattern) {
        Ok(re) => re.is_match(text),
        Err(_) => false,
    }
}

/// `id` is written as a canonical lower-case UUID.
pub fn is_valid_uuid(id: &str) -> (r: bool)
    ensures
        r == uuid_shaped(id@),
{
    regex_is_match(UUID_PATTERN, id)
}

/// A file name is acceptable: not empty, without "..", '/' or '\'.
pub open spec fn filename_ok(s: Seq<char>) -> bool {
    &&& !has_sub(s, ".."@)
    &&& !has_char(s, '/')
    &&& !has_char(s, '\\')
    &&& s.len() > 0
}

/// Whether `filename` is an acceptable file name (see `filename_ok`).
pub fn is_valid_filename(filename: &str) -> (r: bool)
    ensures
        r == filename_ok(filename@),
{
    if str_contains(filename, "..") {
        return false;
    }
    if str_contains(filename, "/") || str_contains(filename, "\\") {
        proof {
            reveal_strlit("/");
            reveal_strlit("\\");
            if has_sub(filename@, "/"@) {
                let i = choose|i: int| crate::text::occurs_at(filename@, "/"@, i);
                assert(filename@[i] == filename@.subrange(i, i + 1)[0]);
            } else {
                let i = choose|i: int| crate::text::occurs_at(filename@, "\\"@, i);
                assert(filename@[i] == filename@.subrange(i, i + 1)[0]);
            }
        }
        return false;
    }
    proof {
        reveal_strlit("/");
        reveal_strlit("\\");
        assert forall|i: int| 0 <= i < filename@.len() implies filename@[i] != '/' && filename@[i] != '\\' by {
            if filename@[i] == '/' {
                assert(filename@.subrange(i, i + 1) =~= "/"@);
                assert(crate::text::occurs_at(filename@, "/"@, i));
            }
            if filename@[i] == '\\' {
                assert(filename@.subrange(i, i + 1) =~= "\\"@);
                assert(crate::text::occurs_at(filename@, "\\"@, i));
            }
        }
    }
    if filename.is_empty() {
        return false;
    }
    true
}

/// The MIME type begins with one of the accepted prefixes: images, videos,
/// fonts, audio, scripts, style sheets, JSON, plain text, PDF and ZIP.
pub open spec fn mime_ok(m: Seq<char>) -> bool {
    ||| has_prefix(m, "image/"@)
    ||| has_prefix(m, "video/"@)
    ||| has_prefix(m, "font/"@)
    ||| has_prefix(m, "application/javascript"@)
    ||| has_prefix(m, "text/css"@)
    ||| has_prefix(m, "application/json"@)
    ||| has_prefix(m, "text/javascript"@)
    ||| has_prefix(m, "application/ecmascript"@)
    ||| has_prefix(m, "text/plain"@)
    ||| has_prefix(m, "application/pdf"@)
    ||| has_prefix(m, "application/zip"@)
    ||| has_prefix(m, "audio/"@)
}

/// Whether `mime` begins with an accepted prefix (see `mime_ok`).
pub fn is_valid_mime(mime: &str) -> (r: bool)
    ensures
        r == mime_ok(mime@),
{
    str_starts_with(mime, "image/")
        || str_starts_with(mime, "video/")
        || str_starts_with(mime, "font/")
        || str_starts_with(mime, "application/javascript")
        || str_starts_with(mime, "text/css")
        || str_starts_with(mime, "application/json")
        || str_starts_with(mime, "text/javascript")
        || str_starts_with(mime, "application/ecmascript")
        || str_starts_with(mime, "text/plain")
        || str_starts_with(mime, "application/pdf")
        || str_starts_with(mime, "application/zip")
        || str_starts_with(mime, "audio/")
}

/// A tag is acceptable: not empty and at most `MAX_TAG_BYTES` bytes of UTF-8.
pub open spec fn tag_ok(t: Seq<char>) -> bool {
    t.len() > 0 && encode_utf8(t).len() <= MAX_TAG_BYTES
}

/// A list of tags is acceptable: at most `MAX_TAGS` of them, each acceptable.
pub open spec fn tags_ok(tags: Seq<String>) -> bool {
    &&& tags.len() <= MAX_TAGS
    &&& forall|i: int| 0 <= i < tags.len() ==> tag_ok(#[trigger] tags[i]@)
}

/// A text takes at least one and at most four bytes of UTF-8 per character.
pub proof fn lemma_utf8_len_bounds(s: Seq<char>)
    ensures
        s.len() <= encode_utf8(s).len() <= 4 * s.len(),
    decreases s.len(),
{
    if s.len() > 0 {
        lemma_utf8_len_bounds(s.drop_first());
    }
}

/// Whether the tags are acceptable (see `tags_ok`).
pub fn is_valid_tags(tags: &[String]) -> (r: bool)
    ensures
        r == tags_ok(tags@),
{
    if tags.len() > MAX_TAGS {
        return false;
    }
    let mut i: usize = 0;
    while i < tags.len()
        invariant
            0 <= i <= tags@.len(),
            forall|j: int| 0 <= j < i ==> tag_ok(#[trigger] tags@[j]@),
        decreases tags@.len() - i,
    {
        let t = tags[i].as_str();
        if t.is_empty() {
            return false;
        }
        proof { lemma_utf8_len_bounds(t@); }
        if t.unicode_len() > MAX_TAG_BYTES {
            return false;
        }
        if t.len() > MAX_TAG_BYTES {
            return false;
        }
        i += 1;
    }
    true
}

/// Whether a file of `size` bytes is accepted.
pub fn is_valid_file_size(size: u64) -> (r: bool)
    ensures
        r == (size <= MAX_FILE_SIZE),
{
    size <= MAX_FILE_SIZE
}

/// The pieces of `s` between the separators '/', as `split('/')` gives them:
/// one more piece than there are separators.
pub open spec fn split_slash(s: Seq<char>) -> Seq<Seq<char>>
    decreases s.len(),
{
    if s.len() == 0 {
        seq![Seq::empty()]
    } else {
        let prev = split_slash(s.drop_last());
        if s.last() == '/' {
            prev.push(Seq::empty())
        } else {
            prev.update(prev.len() - 1, prev.last().push(s.last()))
        }
    }
}

/// A piece of a path that sanitizing keeps: not empty and not "..".
pub open spec fn segment_kept(p: Seq<char>) -> bool {
    p.len() > 0 && p != ".."@
}

/// The pieces of `s` that sanitizing keeps, in order.
pub open spec fn kept_segments(s: Seq<char>) -> Seq<Seq<char>> {
    split_slash(s).filter(|p: Seq<char>| segment_kept(p))
}

/// The pieces joined with '/' between them.
pub open spec fn join_slash(parts: Seq<Seq<char>>) -> Seq<char>
    decreases parts.len(),
{
    if parts.len() == 0 {
        Seq::empty()
    } else if parts.len() == 1 {
        parts[0]
    } else {
        join_slash(parts.drop_last()).push('/') + parts.last()
    }
}

/// The sanitized form of a path: its pieces other than empty ones and "..",
/// joined with '/'.
pub open spec fn sanitized(s: Seq<char>) -> Seq<char> {
    join_slash(kept_segments(s))
}

/// Splitting never yields an empty list, and the last piece grows as the text does.
pub proof fn lemma_split_nonempty(s: Seq<char>)
    ensures
        split_slash(s).len() >= 1,
    decreases s.len(),
{
    if s.len() > 0 {
        lemma_split_nonempty(s.drop_last());
    }
}

/// Joining one more piece.
proof fn lemma_join_push(parts: Seq<Seq<char>>, p: Seq<char>)
    ensures
        join_slash(parts.push(p)) == if parts.len() == 0 { p } else { join_slash(parts).push('/') + p },
{
    assert(parts.push(p).drop_last() =~= parts);
}

/// The sanitized form of `path`: its pieces between '/' other than empty
/// ones and "..", joined with '/'.
pub fn sanitize_path(path: &str) -> (r: String)
    ensures
        r@ == sanitized(path@),
{
    let cs = chars_of(path);
    let ghost s = path@;
    let ghost keep = |p: Seq<char>| segment_kept(p);
    let mut out: Vec<char> = Vec::new();
    let mut cur: Vec<char> = Vec::new();
    let mut any: bool = false;
    let mut i: usize = 0;
    proof { reveal_strlit(".."); }
    while i < cs.len()
        invariant
            cs@ == s,
            0 <= i <= s.len(),
            keep == (|p: Seq<char>| segment_kept(p)),
            split_slash(s.take(i as int)).len() >= 1,
            cur@ == split_slash(s.take(i as int)).last(),
            out@ == join_slash(split_slash(s.take(i as int)).drop_last().filter(keep)),
            any == (split_slash(s.take(i as int)).drop_last().filter(keep).len() > 0),
        decreases s.len() - i,
    {
        let ghost segs = split_slash(s.take(i as int));
        proof {
            reveal_strlit("..");
            assert(s.take(i + 1).drop_last() =~= s.take(i as int));
            lemma_split_nonempty(s.take(i + 1));
        }
        let c = cs[i];
        if c == '/' {
            let ghost done_parts = segs.drop_last().filter(keep);
            proof {
                assert(split_slash(s.take(i + 1)) == segs.push(Seq::empty()));
                assert(segs.push(Seq::empty()).drop_last() =~= segs);
                assert(segs =~= segs.drop_last().push(segs.last()));
                segs.drop_last().lemma_filter_push(segs.last(), keep);
            }
            let good = cur.len() > 0 && !(cur.len() == 2 && cur[0] == '.' && cur[1] == '.');
            proof {
                assert(".."@ =~= seq!['.', '.']);
                if cur@.len() == 2 && cur@[0] == '.' && cur@[1] == '.' {
                    assert(cur@ =~= seq!['.', '.']);
                }
                assert(good == segment_kept(cur@));
            }
            if good {
                proof { lemma_join_push(done_parts, cur@); }
                if any {
                    out.push('/');
                }
                let mut k: usize = 0;
                let ghost base = out@;
                while k < cur.len()
                    invariant
                        0 <= k <= cur@.len(),
                        out@ == base + cur@.take(k as int),
                    decreases cur@.len() - k,
                {
                    out.push(cur[k]);
                    assert(cur@.take(k + 1) =~= cur@.take(k as int).push(cur@[k as int]));
                    k += 1;
                }
                assert(cur@.take(cur@.len() as int) =~= cur@);
                any = true;
            }
            cur = Vec::new();
        } else {
            proof {
                assert(split_slash(s.take(i + 1)) == segs.update(segs.len() - 1, segs.last().push(c)));
                assert(segs.update(segs.len() - 1, segs.last().push(c)).drop_last() =~= segs.drop_last());
            }
            cur.push(c);
        }
        i += 1;
    }
    proof {
        assert(s.take(s.len() as int) =~= s);
    }
    let ghost segs = split_slash(s);
    let ghost done_parts = segs.drop_last().filter(keep);
    proof {
        assert(segs =~= segs.drop_last().push(segs.last()));
        segs.drop_last().lemma_filter_push(segs.last(), keep);
        reveal_strlit("..");
        assert(".."@ =~= seq!['.', '.']);
    }
    let good = cur.len() > 0 && !(cur.len() == 2 && cur[0] == '.' && cur[1] == '.');
    proof {
        if cur@.len() == 2 && cur@[0] == '.' && cur@[1] == '.' {
            assert(cur@ =~= seq!['.', '.']);
        }
    }
    assert(good == segment_kept(cur@));
    if good {
        proof { lemma_join_push(done_parts, cur@); }
        if any {
            out.push('/');
        }
        let mut k: usize = 0;
        let ghost base = out@;
        while k < cur.len()
            invariant
                0 <= k <= cur@.len(),
                out@ == base + cur@.take(k as int),
            decreases cur@.len() - k,
        {
            out.push(cur[k]);
            assert(cur@.take(k + 1) =~= cur@.take(k as int).push(cur@[k as int]));
            k += 1;
        }
        assert(cur@.take(cur@.len() as int) =~= cur@);
    }
    assert(out@ == sanitized(s));
    string_from_chars(&out)
}

/// No piece of a split contains the separator.
proof fn lemma_split_pieces(s: Seq<char>)
    ensures
        forall|k: int| 0 <= k < split_slash(s).len() ==> !(#[trigger] split_slash(s)[k]).contains('/'),
    decreases s.len(),
{
    if s.len() > 0 {
        lemma_split_pieces(s.drop_last());
        lemma_split_nonempty(s.drop_last());
        let prev = split_slash(s.drop_last());
        if s.last() != '/' {
            let last = prev[prev.len() - 1];
            assert(!last.contains('/'));
            let l = last.push(s.last());
            assert(!l.contains('/')) by {
                if l.contains('/') {
                    let j = choose|j: int| 0 <= j < l.len() && l[j] == '/';
                    if j < last.len() {
                        assert(last[j] == '/');
                        assert(last.contains('/'));
                    }
                }
            }
            assert forall|k: int| 0 <= k < split_slash(s).len() implies !(#[trigger] split_slash(s)[k]).contains('/') by {
                if k < prev.len() - 1 {
                    assert(split_slash(s)[k] == prev[k]);
                } else {
                    assert(split_slash(s)[k] == l);
                }
            }
        } else {
            assert forall|k: int| 0 <= k < split_slash(s).len() implies !(#[trigger] split_slash(s)[k]).contains('/') by {
                if k < prev.len() {
                    assert(split_slash(s)[k] == prev[k]);
                } else {
                    assert(split_slash(s)[k] =~= Seq::<char>::empty());
                }
            }
        }
    }
}

/// A text without separators is a single piece.
proof fn lemma_split_plain(p: Seq<char>)
    requires
        !p.contains('/'),
    ensures
        split_slash(p) == seq![p],
    decreases p.len(),
{
    if p.len() > 0 {
        assert(!p.drop_last().contains('/')) by {
            if p.drop_last().contains('/') {
                let j = choose|j: int| 0 <= j < p.drop_last().len() && p.drop_last()[j] == '/';
                assert(p[j] == '/');
            }
        }
        lemma_split_plain(p.drop_last());
        assert(p.last() != '/') by {
            assert(p[p.len() - 1] == p.last());
        }
        assert(p.drop_last().push(p.last()) =~= p);
        assert(seq![p.drop_last()].update(0, p.drop_last().push(p.last())) =~= seq![p]);
    } else {
        assert(p =~= Seq::<char>::empty());
    }
}

/// Splitting a text, a separator, and a text without separators.
proof fn lemma_split_after(x: Seq<char>, p: Seq<char>)
    requires
        !p.contains('/'),
    ensures
        split_slash(x.push('/') + p) == split_slash(x).push(p),
    decreases p.len(),
{
    if p.len() == 0 {
        assert(x.push('/') + p =~= x.push('/'));
        assert((x.push('/')).drop_last() =~= x);
        assert((x.push('/')).last() == '/');
        assert(p =~= Seq::<char>::empty());
    } else {
        let q = p.drop_last();
        let c = p.last();
        assert(!q.contains('/')) by {
            if q.contains('/') {
                let j = choose|j: int| 0 <= j < q.len() && q[j] == '/';
                assert(p[j] == '/');
            }
        }
        assert(c != '/') by {
            assert(p[p.len() - 1] == c);
        }
        lemma_split_after(x, q);
        let whole = x.push('/') + p;
        assert(whole.drop_last() =~= x.push('/') + q);
        assert(whole.last() == c);
        let prev = split_slash(x).push(q);
        assert(prev.update(prev.len() - 1, prev.last().push(c)) =~= split_slash(x).push(p)) by {
            assert(q.push(c) =~= p);
        }
    }
}

/// Splitting the joined pieces gives the pieces back, when there is at least
/// one and none contains the separator.
proof fn lemma_split_join(parts: Seq<Seq<char>>)
    requires
        parts.len() >= 1,
        forall|k: int| 0 <= k < parts.len() ==> !(#[trigger] parts[k]).contains('/'),
    ensures
        split_slash(join_slash(parts)) == parts,
    decreases parts.len(),
{
    if parts.len() == 1 {
        lemma_split_plain(parts[0]);
        assert(seq![parts[0]] =~= parts);
    } else {
        let d = parts.drop_last();
        assert forall|k: int| 0 <= k < d.len() implies !(#[trigger] d[k]).contains('/') by {
            assert(d[k] == parts[k]);
        }
        lemma_split_join(d);
        assert(!parts.last().contains('/')) by {
            assert(parts[parts.len() - 1] == parts.last());
        }
        lemma_split_after(join_slash(d), parts.last());
        assert(d.push(parts.last()) =~= parts);
    }
}

/// Keeping the elements that satisfy `p` keeps all of them when all do.
proof fn lemma_filter_all(s: Seq<Seq<char>>, p: spec_fn(Seq<char>) -> bool)
    requires
        forall|k: int| 0 <= k < s.len() ==> p(#[trigger] s[k]),
    ensures
        s.filter(p) == s,
    decreases s.len(),
{
    reveal(Seq::filter);
    if s.len() > 0 {
        let d = s.drop_last();
        assert forall|k: int| 0 <= k < d.len() implies p(#[trigger] d[k]) by {
            assert(d[k] == s[k]);
        }
        lemma_filter_all(d, p);
        assert(s =~= d.push(s.last()));
        d.lemma_filter_push(s.last(), p);
        assert(p(s[s.len() - 1]));
    } else {
        assert(s.filter(p) =~= s);
    }
}

/// The kept pieces of a path: each is non-empty, is not "..", and holds no separator.
proof fn lemma_kept_pieces(s: Seq<char>)
    ensures
        forall|k: int| 0 <= k < kept_segments(s).len() ==> segment_kept(#[trigger] kept_segments(s)[k])
            && !kept_segments(s)[k].contains('/'),
{
    let keep = |p: Seq<char>| segment_kept(p);
    lemma_split_pieces(s);
    assert forall|k: int| 0 <= k < kept_segments(s).len() implies segment_kept(#[trigger] kept_segments(s)[k])
        && !kept_segments(s)[k].contains('/') by {
        let e = kept_segments(s)[k];
        assert(split_slash(s).filter(keep).contains(e));
        split_slash(s).lemma_filter_contains_rev(keep, e);
        let j = choose|j: int| 0 <= j < split_slash(s).len() && split_slash(s)[j] == e;
        assert(!split_slash(s)[j].contains('/'));
        assert(keep(e)) by {
            broadcast use vstd::seq_lib::group_filter_ensures;
            assert(keep(split_slash(s).filter(keep)[k]));
        }
    }
}

/// A sanitized path splits into exactly the pieces sanitizing kept, unless it
/// kept none (and the path is empty): so no piece of it is empty or "..".
pub proof fn sanitized_pieces(path: Seq<char>)
    ensures
        kept_segments(path).len() == 0 ==> sanitized(path).len() == 0,
        kept_segments(path).len() > 0 ==> split_slash(sanitized(path)) == kept_segments(path),
        forall|k: int| 0 <= k < kept_segments(path).len() ==> segment_kept(#[trigger] kept_segments(path)[k]),
{
    lemma_kept_pieces(path);
    if kept_segments(path).len() > 0 {
        lemma_split_join(kept_segments(path));
    }
}

/// Sanitizing a sanitized path changes nothing.
pub proof fn sanitize_idempotent(path: Seq<char>)
    ensures
        sanitized(sanitized(path)) == sanitized(path),
{
    let k = kept_segments(path);
    let keep = |p: Seq<char>| segment_kept(p);
    lemma_kept_pieces(path);
    if k.len() == 0 {
        assert(sanitized(path) =~= Seq::<char>::empty());
        assert(split_slash(Seq::<char>::empty()) == seq![Seq::<char>::empty()]);
        reveal(Seq::filter);
        assert(seq![Seq::<char>::empty()].filter(keep) =~= Seq::<Seq<char>>::empty()) by {
            assert(seq![Seq::<char>::empty()] =~= Seq::<Seq<char>>::empty().push(Seq::<char>::empty()));
            Seq::<Seq<char>>::empty().lemma_filter_push(Seq::<char>::empty(), keep);
            assert(Seq::<Seq<char>>::empty().filter(keep) =~= Seq::<Seq<char>>::empty());
        }
    } else {
        lemma_split_join(k);
        lemma_filter_all(k, keep);
    }
}

} // verus!
