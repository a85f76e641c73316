//! The `<script server>` elements of a page: where they stand, and the page with something else
//! in their place.
use crate::text::is_white_space;
use vstd::prelude::*;
use vstd::string::*;
use vstd::utf8::*;

verus! {

/// The pattern of a server script: an opening tag `<script server ...>`, whatever is up to the
/// nearest closing tag, and that closing tag.
pub const SERVER_SCRIPT: &'static str = r#"<script\s+server[^>]*>([\s\S]*?)</script>"#;

/// The places, counted in characters, at which the parts of a server script begin and end.
pub struct TagSpan {
    /// Where the opening tag begins.
    pub start: int,
    /// Where the script's own text begins.
    pub body: int,
    /// Where the closing tag begins.
    pub close: int,
    /// Where the closing tag ends.
    pub end: int,
}

/// An opening tag stands from `start` to `body`: `<script`, white space, the word `server` at
/// `word`, and anything but `>` up to the `>` that ends it.
pub open spec fn is_opening_tag(t: Seq<char>, start: int, word: int, body: int) -> bool {
    &&& 0 <= start
    &&& start + 7 < word
    &&& word + 6 < body <= t.len()
    &&& t.subrange(start, start + 7) == "<script"@
    &&& forall|i: int| start + 7 <= i < word ==> is_white_space(#[trigger] t[i])
    &&& t.subrange(word, word + 6) == "server"@
    &&& forall|i: int| word + 6 <= i < body - 1 ==> #[trigger] t[i] != '>'
    &&& t[body - 1] == '>'
}

/// A closing tag stands at `i`.
pub open spec fn closes_at(t: Seq<char>, i: int) -> bool {
    &&& 0 <= i
    &&& i + 9 <= t.len()
    &&& t.subrange(i, i + 9) == "</script>"@
}

/// `tag` is a server script of `t`: an opening tag, then the text up to the first closing tag.
pub open spec fn is_server_tag(t: Seq<char>, tag: TagSpan) -> bool {
    &&& exists|word: int| is_opening_tag(t, tag.start, word, tag.body)
    &&& tag.body <= tag.close
    &&& closes_at(t, tag.close)
    &&& forall|i: int| tag.body <= i < tag.close ==> !#[trigger] closes_at(t, i)
    &&& tag.end == tag.close + 9
}

/// A server script of `t` begins at `p`.
pub open spec fn begins_server_tag(t: Seq<char>, p: int) -> bool {
    exists|tag: TagSpan| #[trigger] is_server_tag(t, tag) && tag.start == p
}

/// The server script that begins at `p`.
pub open spec fn server_tag_at(t: Seq<char>, p: int) -> TagSpan {
    choose|tag: TagSpan| #[trigger] is_server_tag(t, tag) && tag.start == p
}

/// The server scripts of `t` from `p` on: the first that begins at or after `p`, then those from
/// its end on.
pub open spec fn server_tags_from(t: Seq<char>, p: int) -> Seq<TagSpan>
    decreases t.len() - p,
{
    if p >= t.len() {
        seq![]
    } else if begins_server_tag(t, p) && server_tag_at(t, p).end > p {
        seq![server_tag_at(t, p)] + server_tags_from(t, server_tag_at(t, p).end)
    } else {
        server_tags_from(t, p + 1)
    }
}

/// The server scripts of a page, in the order in which they stand in it.
pub open spec fn server_tags(t: Seq<char>) -> Seq<TagSpan> {
    server_tags_from(t, 0)
}

/// How many bytes the first `i` characters of `t` take.
pub open spec fn byte_offset(t: Seq<char>, i: int) -> nat {
    encode_utf8(t.take(i)).len()
}

/// Where the part of the page that follows the first `n` tags begins.
pub open spec fn resume_at(tags: Seq<TagSpan>, n: int) -> int {
    if n <= 0 {
        0
    } else {
        tags[n - 1].end
    }
}

/// The page up to the end of its first `n` tags, each of them replaced.
pub open spec fn rendered_upto(
    t: Seq<char>,
    tags: Seq<TagSpan>,
    replacements: Seq<Seq<char>>,
    n: int,
) -> Seq<char>
    decreases n,
{
    if n <= 0 {
        seq![]
    } else {
        rendered_upto(t, tags, replacements, n - 1) + t.subrange(
            resume_at(tags, n - 1),
            tags[n - 1].start,
        ) + replacements[n - 1]
    }
}

/// The page with each tag replaced, and everything else as it was.
pub open spec fn rendered(
    t: Seq<char>,
    tags: Seq<TagSpan>,
    replacements: Seq<Seq<char>>,
) -> Seq<char> {
    rendered_upto(t, tags, replacements, tags.len() as int) + t.skip(
        resume_at(tags, tags.len() as int),
    )
}

/// `tags` stand one after another in a page of `len` characters, none reaching into the next.
pub open spec fn in_order(tags: Seq<TagSpan>, len: int) -> bool {
    &&& forall|i: int|
        0 <= i < tags.len() ==> resume_at(tags, i) <= (#[trigger] tags[i]).start < tags[i].end
            <= len
}

/// Where a server script begins decides where its parts end.
pub proof fn law_tag_is_determined_by_its_start(t: Seq<char>, a: TagSpan, b: TagSpan)
    requires
        is_server_tag(t, a),
        is_server_tag(t, b),
        a.start == b.start,
    ensures
        a == b,
{
    reveal_strlit("server");
    let v = choose|word: int| is_opening_tag(t, a.start, word, a.body);
    let w = choose|word: int| is_opening_tag(t, b.start, word, b.body);
    assert(t.subrange(v, v + 6)[0] == 's');
    assert(t.subrange(w, w + 6)[0] == 's');
    assert(t[v] == 's' && t[w] == 's');
    assert(v == w);
    if a.body < b.body {
        assert(t[a.body - 1] == '>');
    } else if b.body < a.body {
        assert(t[b.body - 1] == '>');
    }
    if a.close < b.close {
        assert(closes_at(t, a.close));
    } else if b.close < a.close {
        assert(closes_at(t, b.close));
    }
}

/// The parts of a server script follow one another inside the page.
pub proof fn lemma_tag_bounds(t: Seq<char>, tag: TagSpan)
    requires
        is_server_tag(t, tag),
    ensures
        0 <= tag.start < tag.body <= tag.close < tag.end <= t.len(),
{
}

proof fn lemma_server_tags_from(t: Seq<char>, p: int)
    requires
        0 <= p,
    ensures
        forall|i: int|
            0 <= i < server_tags_from(t, p).len() ==> is_server_tag(
                t,
                #[trigger] server_tags_from(t, p)[i],
            ),
        forall|i: int|
            0 < i < server_tags_from(t, p).len() ==> server_tags_from(t, p)[i - 1].end <= (
            #[trigger] server_tags_from(t, p)[i]).start,
        server_tags_from(t, p).len() > 0 ==> p <= server_tags_from(t, p)[0].start,
    decreases t.len() - p,
{
    let all = server_tags_from(t, p);
    if p >= t.len() {
    } else if begins_server_tag(t, p) {
        let tag = server_tag_at(t, p);
        lemma_tag_bounds(t, tag);
        lemma_server_tags_from(t, tag.end);
        let rest = server_tags_from(t, tag.end);
        assert(all == seq![tag] + rest);
        assert forall|i: int| 0 <= i < all.len() implies is_server_tag(t, #[trigger] all[i]) by {
            if i > 0 {
                assert(all[i] == rest[i - 1]);
            }
        }
        assert forall|i: int| 0 < i < all.len() implies all[i - 1].end <= (
        #[trigger] all[i]).start by {
            assert(all[i] == rest[i - 1]);
            if i > 1 {
                assert(all[i - 1] == rest[i - 2]);
            }
        }
    } else {
        lemma_server_tags_from(t, p + 1);
    }
}

/// What `server_tags` lists are server scripts, and they stand in order without overlap.
pub proof fn law_server_tags_are_in_order(t: Seq<char>)
    ensures
        forall|i: int| 0 <= i < server_tags(t).len() ==> is_server_tag(t, #[trigger] server_tags(t)[i]),
        in_order(server_tags(t), t.len() as int),
{
    lemma_server_tags_from(t, 0);
    let tags = server_tags(t);
    assert forall|i: int| 0 <= i < tags.len() implies resume_at(tags, i) <= (
    #[trigger] tags[i]).start < tags[i].end <= t.len() by {
        lemma_tag_bounds(t, tags[i]);
    }
}

proof fn lemma_server_tags_from_cover(t: Seq<char>, p: int, tag: TagSpan)
    requires
        0 <= p <= tag.start,
        is_server_tag(t, tag),
    ensures
        exists|i: int|
            0 <= i < server_tags_from(t, p).len() && (#[trigger] server_tags_from(t, p)[i]).start
                <= tag.start < server_tags_from(t, p)[i].end,
    decreases t.len() - p,
{
    lemma_tag_bounds(t, tag);
    let all = server_tags_from(t, p);
    if begins_server_tag(t, p) {
        let first = server_tag_at(t, p);
        lemma_tag_bounds(t, first);
        let rest = server_tags_from(t, first.end);
        assert(all == seq![first] + rest);
        if tag.start < first.end {
            assert(all[0] == first);
        } else {
            lemma_server_tags_from_cover(t, first.end, tag);
            let i = choose|i: int|
                0 <= i < rest.len() && (#[trigger] rest[i]).start <= tag.start < rest[i].end;
            assert(all[i + 1] == rest[i]);
        }
    } else {
        assert(tag.start != p);
        lemma_server_tags_from_cover(t, p + 1, tag);
    }
}

/// No server script is missed: each is listed, or begins inside one that is listed.
pub proof fn law_no_server_tag_is_missed(t: Seq<char>, tag: TagSpan)
    requires
        is_server_tag(t, tag),
    ensures
        exists|i: int|
            0 <= i < server_tags(t).len() && (#[trigger] server_tags(t)[i]).start <= tag.start
                < server_tags(t)[i].end,
{
    lemma_tag_bounds(t, tag);
    lemma_server_tags_from_cover(t, 0, tag);
    let all = server_tags_from(t, 0);
    let i = choose|i: int|
        0 <= i < all.len() && (#[trigger] all[i]).start <= tag.start < all[i].end;
    assert(server_tags(t)[i] == all[i]);
}

/// A page in which `<script` does not occur has no server scripts.
pub proof fn law_page_without_script_tags(t: Seq<char>)
    requires
        forall|i: int| 0 <= i && i + 7 <= t.len() ==> #[trigger] t.subrange(i, i + 7) != "<script"@,
    ensures
        server_tags(t).len() == 0,
{
    law_server_tags_are_in_order(t);
    if server_tags(t).len() > 0 {
        let tag = server_tags(t)[0];
        lemma_tag_bounds(t, tag);
        let word = choose|word: int| is_opening_tag(t, tag.start, word, tag.body);
        assert(t.subrange(tag.start, tag.start + 7) == "<script"@);
    }
}

/// The scripts' own texts in a page.
pub open spec fn script_texts(t: Seq<char>) -> Seq<Seq<char>> {
    server_tags(t).map_values(|tag: TagSpan| t.subrange(tag.body, tag.close))
}

/// The text of each tag as it stands in the page.
pub open spec fn sources(t: Seq<char>, tags: Seq<TagSpan>) -> Seq<Seq<char>> {
    tags.map_values(|tag: TagSpan| t.subrange(tag.start, tag.end))
}

proof fn lemma_rendered_upto_sources(t: Seq<char>, tags: Seq<TagSpan>, n: int)
    requires
        in_order(tags, t.len() as int),
        0 <= n <= tags.len(),
    ensures
        0 <= resume_at(tags, n) <= t.len(),
        rendered_upto(t, tags, sources(t, tags), n) == t.take(resume_at(tags, n)),
    decreases n,
{
    if n > 0 {
        lemma_rendered_upto_sources(t, tags, n - 1);
        let tag = tags[n - 1];
        let from = resume_at(tags, n - 1);
        assert(t.take(from) + t.subrange(from, tag.start) + t.subrange(tag.start, tag.end)
            =~= t.take(tag.end));
    }
}

/// Putting every tag's own text back in its place gives the page again.
pub proof fn law_rendering_the_sources_gives_the_page(t: Seq<char>, tags: Seq<TagSpan>)
    requires
        in_order(tags, t.len() as int),
    ensures
        rendered(t, tags, sources(t, tags)) == t,
{
    lemma_rendered_upto_sources(t, tags, tags.len() as int);
    let end = resume_at(tags, tags.len() as int);
    assert(t.take(end) + t.skip(end) =~= t);
}

/// A page without tags is rendered as it is.
pub proof fn law_rendering_nothing_gives_the_page(t: Seq<char>)
    ensures
        rendered(t, seq![], seq![]) == t,
{
    assert(t.skip(0) =~= t);
}

proof fn lemma_rendered_upto_depends_on_prefix(
    t: Seq<char>,
    tags: Seq<TagSpan>,
    a: Seq<Seq<char>>,
    b: Seq<Seq<char>>,
    n: int,
)
    requires
        0 <= n,
        forall|i: int| 0 <= i < n ==> #[trigger] a[i] == b[i],
    ensures
        rendered_upto(t, tags, a, n) == rendered_upto(t, tags, b, n),
    decreases n,
{
    if n > 0 {
        lemma_rendered_upto_depends_on_prefix(t, tags, a, b, n - 1);
        assert(a[n - 1] == b[n - 1]);
    }
}

/// The page from the end of its first `n` tags on, with the remaining tags replaced.
pub open spec fn rendered_from(
    t: Seq<char>,
    tags: Seq<TagSpan>,
    replacements: Seq<Seq<char>>,
    n: int,
) -> Seq<char>
    decreases tags.len() - n,
{
    if n >= tags.len() {
        t.skip(resume_at(tags, tags.len() as int))
    } else {
        t.subrange(resume_at(tags, n), tags[n].start) + replacements[n] + rendered_from(
            t,
            tags,
            replacements,
            n + 1,
        )
    }
}

proof fn lemma_rendered_from_depends_on_suffix(
    t: Seq<char>,
    tags: Seq<TagSpan>,
    a: Seq<Seq<char>>,
    b: Seq<Seq<char>>,
    n: int,
)
    requires
        forall|i: int| n <= i < tags.len() ==> #[trigger] a[i] == b[i],
    ensures
        rendered_from(t, tags, a, n) == rendered_from(t, tags, b, n),
    decreases tags.len() - n,
{
    if n < tags.len() {
        lemma_rendered_from_depends_on_suffix(t, tags, a, b, n + 1);
        assert(a[n] == b[n]);
    }
}

proof fn lemma_rendered_splits(
    t: Seq<char>,
    tags: Seq<TagSpan>,
    replacements: Seq<Seq<char>>,
    n: int,
)
    requires
        0 <= n <= tags.len(),
    ensures
        rendered(t, tags, replacements) == rendered_upto(t, tags, replacements, n) + rendered_from(
            t,
            tags,
            replacements,
            n,
        ),
    decreases tags.len() - n,
{
    if n < tags.len() {
        lemma_rendered_splits(t, tags, replacements, n + 1);
        let upto = rendered_upto(t, tags, replacements, n);
        let gap = t.subrange(resume_at(tags, n), tags[n].start);
        let rest = rendered_from(t, tags, replacements, n + 1);
        assert(upto + gap + replacements[n] + rest =~= upto + (gap + replacements[n] + rest));
    }
}

/// Putting something else in the place of one tag changes the rendered page there and nowhere
/// else.
pub proof fn law_rendering_is_local(
    t: Seq<char>,
    tags: Seq<TagSpan>,
    replacements: Seq<Seq<char>>,
    k: int,
    other: Seq<char>,
)
    requires
        0 <= k < tags.len(),
        replacements.len() == tags.len(),
    ensures
        ({
            let before = rendered_upto(t, tags, replacements, k) + t.subrange(
                resume_at(tags, k),
                tags[k].start,
            );
            let after = rendered_from(t, tags, replacements, k + 1);
            &&& rendered(t, tags, replacements) == before + replacements[k] + after
            &&& rendered(t, tags, replacements.update(k, other)) == before + other + after
        }),
{
    let changed = replacements.update(k, other);
    lemma_rendered_upto_depends_on_prefix(t, tags, changed, replacements, k);
    lemma_rendered_from_depends_on_suffix(t, tags, changed, replacements, k + 1);
    lemma_rendered_splits(t, tags, replacements, k);
    lemma_rendered_splits(t, tags, changed, k);
    let upto = rendered_upto(t, tags, replacements, k);
    let gap = t.subrange(resume_at(tags, k), tags[k].start);
    let after = rendered_from(t, tags, replacements, k + 1);
    assert(upto + (gap + replacements[k] + after) =~= upto + gap + replacements[k] + after);
    assert(upto + (gap + other + after) =~= upto + gap + other + after);
}

/// Encoding a concatenation is concatenating the encodings.
pub proof fn lemma_encode_concat(a: Seq<char>, b: Seq<char>)
    ensures
        encode_utf8(a + b) == encode_utf8(a) + encode_utf8(b),
    decreases a.len(),
{
    if a.len() == 0 {
        assert(a + b == b);
        assert(encode_utf8(a) + encode_utf8(b) == encode_utf8(b));
    } else {
        lemma_encode_concat(a.drop_first(), b);
        assert((a + b).drop_first() == a.drop_first() + b);
        assert(encode_scalar(a[0] as u32) + (encode_utf8(a.drop_first()) + encode_utf8(b)) == (
        encode_scalar(a[0] as u32) + encode_utf8(a.drop_first())) + encode_utf8(b));
    }
}

proof fn lemma_boundary_after_prefix(a: Seq<char>, b: Seq<char>)
    ensures
        is_char_boundary(encode_utf8(a + b), encode_utf8(a).len() as int),
    decreases a.len(),
{
    let whole = a + b;
    encode_utf8_valid_utf8(whole);
    if a.len() > 0 {
        let rest = whole.drop_first();
        assert(rest == a.drop_first() + b);
        encode_utf8_first_scalar(whole);
        lemma_boundary_after_prefix(a.drop_first(), b);
        assert(pop_first_scalar(encode_utf8(whole)) == encode_utf8(rest));
        lemma_encode_concat(a, b);
        encode_utf8_valid_utf8(rest);
    }
}

/// Cutting the bytes of a string after as many bytes as its first `i` characters take cuts the
/// string after those characters.
pub proof fn lemma_cut_at_byte_offset(t: Seq<char>, i: int)
    requires
        0 <= i <= t.len(),
    ensures
        is_char_boundary(encode_utf8(t), byte_offset(t, i) as int),
        byte_offset(t, i) <= encode_utf8(t).len(),
        encode_utf8(t).subrange(0, byte_offset(t, i) as int) == encode_utf8(t.take(i)),
        encode_utf8(t).subrange(byte_offset(t, i) as int, encode_utf8(t).len() as int)
            == encode_utf8(t.skip(i)),
{
    assert(t.take(i) + t.skip(i) == t);
    lemma_encode_concat(t.take(i), t.skip(i));
    lemma_boundary_after_prefix(t.take(i), t.skip(i));
}

/// The bytes between two places of a string are those of the characters between them.
pub proof fn lemma_byte_offset_between(t: Seq<char>, i: int, j: int)
    requires
        0 <= i <= j <= t.len(),
    ensures
        byte_offset(t, j) == byte_offset(t, i) + byte_offset(t.skip(i), j - i),
{
    assert(t.take(j) == t.take(i) + t.skip(i).take(j - i));
    lemma_encode_concat(t.take(i), t.skip(i).take(j - i));
}

/// Cuts `s` before its character number `i`, which begins at byte `offset`.
fn split_at_offset<'a>(s: &'a str, offset: usize, Ghost(i): Ghost<int>) -> (r: (&'a str, &'a str))
    requires
        0 <= i <= s@.len(),
        offset == byte_offset(s@, i),
    ensures
        r.0@ == s@.take(i),
        r.1@ == s@.skip(i),
{
    proof {
        lemma_cut_at_byte_offset(s@, i);
    }
    let (a, b) = s.split_at(offset);
    proof {
        encode_utf8_decode_utf8(a@);
        encode_utf8_decode_utf8(b@);
        encode_utf8_decode_utf8(s@.take(i));
        encode_utf8_decode_utf8(s@.skip(i));
    }
    (a, b)
}

/// One server script of a page.
#[derive(Debug)]
pub struct ScriptBlock {
    /// The script's own text.
    pub content: String,
    /// The byte at which the opening tag begins.
    pub start_pos: usize,
    /// The byte after the closing tag.
    pub end_pos: usize,
}

impl ScriptBlock {
    /// The block is what `tag` marks in the page `t`.
    pub open spec fn is_block(self, t: Seq<char>, tag: TagSpan) -> bool {
        &&& self.content@ == t.subrange(tag.body, tag.close)
        &&& self.start_pos == byte_offset(t, tag.start)
        &&& self.end_pos == byte_offset(t, tag.end)
    }
}

/// `blocks` are the server scripts of the page `t`, each once and in their order.
pub open spec fn are_server_scripts(blocks: Seq<ScriptBlock>, t: Seq<char>) -> bool {
    &&& blocks.len() == server_tags(t).len()
    &&& forall|i: int|
        0 <= i < blocks.len() ==> (#[trigger] blocks[i]).is_block(t, server_tags(t)[i])
}

proof fn lemma_encoding_is_not_empty(s: Seq<char>)
    requires
        s.len() > 0,
    ensures
        encode_utf8(s).len() > 0,
{
    assert(encode_scalar(s[0] as u32).len() > 0);
}

/// The blocks of a page stand in order of their positions, without overlap, and each begins and
/// ends between two characters of the page.
pub proof fn law_blocks_are_in_order(blocks: Seq<ScriptBlock>, t: Seq<char>)
    requires
        are_server_scripts(blocks, t),
    ensures
        forall|i: int|
            #![trigger blocks[i]]
            0 <= i < blocks.len() ==> {
                &&& blocks[i].start_pos < blocks[i].end_pos <= encode_utf8(t).len()
                &&& is_char_boundary(encode_utf8(t), blocks[i].start_pos as int)
                &&& is_char_boundary(encode_utf8(t), blocks[i].end_pos as int)
            },
        forall|i: int, j: int|
            0 <= i < j < blocks.len() ==> (#[trigger] blocks[i]).end_pos <= (
            #[trigger] blocks[j]).start_pos,
{
    let tags = server_tags(t);
    law_server_tags_are_in_order(t);
    assert forall|i: int| #![trigger blocks[i]] 0 <= i < blocks.len() implies {
        &&& blocks[i].start_pos < blocks[i].end_pos <= encode_utf8(t).len()
        &&& is_char_boundary(encode_utf8(t), blocks[i].start_pos as int)
        &&& is_char_boundary(encode_utf8(t), blocks[i].end_pos as int)
    } by {
        assert(blocks[i].is_block(t, tags[i]));
        lemma_cut_at_byte_offset(t, tags[i].start);
        lemma_cut_at_byte_offset(t, tags[i].end);
        lemma_byte_offset_between(t, tags[i].start, tags[i].end);
        lemma_encoding_is_not_empty(t.skip(tags[i].start).take(tags[i].end - tags[i].start));
    }
    assert forall|i: int, j: int| 0 <= i < j < blocks.len() implies (
    #[trigger] blocks[i]).end_pos <= (#[trigger] blocks[j]).start_pos by {
        lemma_ends_before(tags, t.len() as int, i, j);
        assert(blocks[i].is_block(t, tags[i]));
        assert(blocks[j].is_block(t, tags[j]));
        lemma_byte_offset_between(t, tags[i].end, tags[j].start);
    }
}

proof fn lemma_ends_before(tags: Seq<TagSpan>, len: int, i: int, j: int)
    requires
        in_order(tags, len),
        0 <= i < j < tags.len(),
    ensures
        0 <= tags[i].start < tags[i].end <= tags[j].start,
    decreases j,
{
    assert(resume_at(tags, j) <= tags[j].start);
    assert(resume_at(tags, i) <= tags[i].start);
    if i > 0 {
        lemma_ends_before(tags, len, i - 1, i);
    }
    if j > i + 1 {
        lemma_ends_before(tags, len, i, j - 1);
    }
}

/// Trusted: `regex::Regex::captures_iter` lists the matches of a pattern from left to right, each
/// beginning at the first place at or after the end of the one before at which the pattern
/// matches.  Of each match this gives the byte at which it begins, the byte at which it ends, and
/// the text of the first group.  `\s` stands for the characters with the Unicode property
/// `White_Space`, `[^>]*` for the longest run of other characters than `>` that lets the rest
/// match, `[\s\S]*?` for the shortest run of any characters that lets the rest match; so the
/// matches of `SERVER_SCRIPT` are the elements of `server_tags`.
#[verifier::external_body]
fn find_captures(pattern: &str, text: &str) -> (r: Vec<(usize, usize, String)>)
    requires
        pattern@ == SERVER_SCRIPT@,
    ensures
        r@.len() == server_tags(text@).len(),
        forall|i: int|
            0 <= i < r@.len() ==> {
                let tag = server_tags(text@)[i];
                &&& (#[trigger] r@[i]).0 == byte_offset(text@, tag.start)
                &&& r@[i].1 == byte_offset(text@, tag.end)
                &&& r@[i].2@ == text@.subrange(tag.body, tag.close)
            },
{
    let re = regex::Regex::new(pattern).expect("Invalid regex");
    re.captures_iter(text)
        .map(|cap| {
            let whole = cap.get(0).unwrap();
            (whole.start(), whole.end(), cap.get(1).unwrap().as_str().to_string())
        })
        .collect()
}

/// The server scripts of `html`, in the order in which they stand in it.
pub fn extract_server_scripts(html: &str) -> (blocks: Vec<ScriptBlock>)
    ensures
        are_server_scripts(blocks@, html@),
{
    let found = find_captures(SERVER_SCRIPT, html);
    let mut blocks: Vec<ScriptBlock> = Vec::new();
    let mut i: usize = 0;
    while i < found.len()
        invariant
            found@.len() == server_tags(html@).len(),
            forall|k: int|
                0 <= k < found@.len() ==> {
                    let tag = server_tags(html@)[k];
                    &&& (#[trigger] found@[k]).0 == byte_offset(html@, tag.start)
                    &&& found@[k].1 == byte_offset(html@, tag.end)
                    &&& found@[k].2@ == html@.subrange(tag.body, tag.close)
                },
            i == blocks@.len() <= found@.len(),
            forall|k: int|
                0 <= k < i ==> (#[trigger] blocks@[k]).is_block(html@, server_tags(html@)[k]),
        decreases found@.len() - i,
    {
        blocks.push(
            ScriptBlock {
                content: found[i].2.clone(),
                start_pos: found[i].0,
                end_pos: found[i].1,
            },
        );
        i = i + 1;
    }
    blocks
}

/// Takes a block out of what is left of the page `t` from character `from` on, which begins at
/// byte `pos`: gives what stands before the block and what stands after it.
fn take_out<'a>(
    rest: &'a str,
    pos: usize,
    block: &ScriptBlock,
    Ghost(t): Ghost<Seq<char>>,
    Ghost(from): Ghost<int>,
    Ghost(tag): Ghost<TagSpan>,
) -> (r: (&'a str, &'a str))
    requires
        block.is_block(t, tag),
        0 <= from <= tag.start <= tag.end <= t.len(),
        rest@ == t.skip(from),
        pos == byte_offset(t, from),
    ensures
        r.0@ == t.subrange(from, tag.start),
        r.1@ == t.skip(tag.end),
{
    proof {
        lemma_byte_offset_between(t, from, tag.start);
        lemma_byte_offset_between(t, tag.start, tag.end);
    }
    let (gap, tail) = split_at_offset(rest, block.start_pos - pos, Ghost(tag.start - from));
    assert(tail@ == t.skip(tag.start));
    let (_, after) = split_at_offset(
        tail,
        block.end_pos - block.start_pos,
        Ghost(tag.end - tag.start),
    );
    assert(after@ == t.skip(tag.end));
    assert(gap@ == t.subrange(from, tag.start));
    (gap, after)
}

/// The texts of a list of strings.
pub open spec fn texts_of(list: Seq<String>) -> Seq<Seq<char>> {
    list.map_values(|s: String| s@)
}

/// The page with each of `tags` replaced, where `blocks` are what they mark in it.
#[verifier::rlimit(30)]
fn splice(
    html: &str,
    blocks: &Vec<ScriptBlock>,
    replacements: &Vec<String>,
    Ghost(tags): Ghost<Seq<TagSpan>>,
) -> (page: String)
    requires
        in_order(tags, html@.len() as int),
        blocks@.len() == tags.len() == replacements@.len(),
        forall|k: int| 0 <= k < blocks@.len() ==> (#[trigger] blocks@[k]).is_block(html@, tags[k]),
    ensures
        page@ == rendered(html@, tags, texts_of(replacements@)),
{
    let ghost t = html@;
    let ghost all = texts_of(replacements@);
    let mut page = String::new();
    let mut rest: &str = html;
    let mut pos: usize = 0;
    let mut i: usize = 0;
    assert(t.skip(0) == t);
    while i < blocks.len()
        invariant
            t == html@,
            in_order(tags, t.len() as int),
            all == texts_of(replacements@),
            forall|k: int| 0 <= k < blocks@.len() ==> (#[trigger] blocks@[k]).is_block(t, tags[k]),
            i <= blocks@.len() == tags.len() == replacements@.len(),
            0 <= resume_at(tags, i as int) <= t.len(),
            rest@ == t.skip(resume_at(tags, i as int)),
            pos == byte_offset(t, resume_at(tags, i as int)),
            page@ == rendered_upto(t, tags, all, i as int),
        decreases blocks@.len() - i,
    {
        let ghost tag = tags[i as int];
        assert(blocks@[i as int].is_block(t, tag));
        let (gap, after) = take_out(
            rest,
            pos,
            &blocks[i],
            Ghost(t),
            Ghost(resume_at(tags, i as int)),
            Ghost(tag),
        );
        page.append(gap);
        page.append(replacements[i].as_str());
        assert(all[i as int] == replacements@[i as int]@);
        rest = after;
        pos = blocks[i].end_pos;
        i = i + 1;
    }
    page.append(rest);
    page
}

/// The page `html` with each of its server scripts replaced, and everything else as it was.
pub fn replace_scripts(html: &str, blocks: &Vec<ScriptBlock>, replacements: &Vec<String>) -> (page:
    String)
    requires
        are_server_scripts(blocks@, html@),
        replacements@.len() == blocks@.len(),
    ensures
        page@ == rendered(html@, server_tags(html@), texts_of(replacements@)),
{
    proof {
        law_server_tags_are_in_order(html@);
    }
    splice(html, blocks, replacements, Ghost(server_tags(html@)))
}

} // verus!
