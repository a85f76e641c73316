//! The server scripts of a page with other text around them.
use crate::parts::law_page_around_one_tag;
use crate::tags::{
    begins_server_tag, closes_at, in_order, is_opening_tag, is_server_tag,
    law_server_tags_are_in_order, law_tag_is_determined_by_its_start, lemma_tag_bounds, rendered,
    rendered_upto, resume_at, script_texts, server_tag_at, server_tags, server_tags_from, TagSpan,
};
use crate::text::{is_blank, is_white_space};
use vstd::prelude::*;

verus! {

/// A tag moved by `n` characters.
pub open spec fn shifted_tag(tag: TagSpan, n: int) -> TagSpan {
    TagSpan { start: tag.start + n, body: tag.body + n, close: tag.close + n, end: tag.end + n }
}

/// Tags moved by `n` characters.
pub open spec fn shifted(tags: Seq<TagSpan>, n: int) -> Seq<TagSpan> {
    tags.map_values(|tag: TagSpan| shifted_tag(tag, n))
}

proof fn lemma_subrange_behind(front: Seq<char>, t: Seq<char>, a: int, b: int)
    requires
        0 <= a <= b <= t.len(),
    ensures
        (front + t).subrange(a + front.len(), b + front.len()) == t.subrange(a, b),
{
    assert((front + t).subrange(a + front.len(), b + front.len()) =~= t.subrange(a, b));
}

proof fn lemma_opening_tag_behind(
    front: Seq<char>,
    t: Seq<char>,
    start: int,
    word: int,
    body: int,
)
    requires
        0 <= start,
    ensures
        is_opening_tag(t, start, word, body) <==> is_opening_tag(
            front + t,
            start + front.len(),
            word + front.len(),
            body + front.len(),
        ),
{
    let n = front.len() as int;
    let whole = front + t;
    if start + 7 < word && word + 6 < body <= t.len() {
        lemma_subrange_behind(front, t, start, start + 7);
        lemma_subrange_behind(front, t, word, word + 6);
        assert(t[body - 1] == whole[body + n - 1]);
        if is_opening_tag(t, start, word, body) {
            assert forall|i: int| start + n + 7 <= i < word + n implies is_white_space(
                #[trigger] whole[i],
            ) by {
                assert(whole[i] == t[i - n]);
            }
            assert forall|i: int| word + n + 6 <= i < body + n - 1 implies #[trigger] whole[i]
                != '>' by {
                assert(whole[i] == t[i - n]);
            }
            assert(is_opening_tag(whole, start + n, word + n, body + n));
        }
        if is_opening_tag(whole, start + n, word + n, body + n) {
            assert forall|i: int| start + 7 <= i < word implies is_white_space(#[trigger] t[i]) by {
                assert(whole[i + n] == t[i]);
            }
            assert forall|i: int| word + 6 <= i < body - 1 implies #[trigger] t[i] != '>' by {
                assert(whole[i + n] == t[i]);
            }
            assert(is_opening_tag(t, start, word, body));
        }
    }
}

proof fn lemma_closes_behind(front: Seq<char>, t: Seq<char>, i: int)
    requires
        0 <= i,
    ensures
        closes_at(t, i) <==> closes_at(front + t, i + front.len()),
{
    if i + 9 <= t.len() {
        lemma_subrange_behind(front, t, i, i + 9);
    }
}

proof fn lemma_server_tag_behind(front: Seq<char>, t: Seq<char>, tag: TagSpan)
    requires
        0 <= tag.start,
    ensures
        is_server_tag(t, tag) <==> is_server_tag(front + t, shifted_tag(tag, front.len() as int)),
{
    let n = front.len() as int;
    let whole = front + t;
    let moved = shifted_tag(tag, n);
    if is_server_tag(t, tag) {
        let word = choose|word: int| is_opening_tag(t, tag.start, word, tag.body);
        lemma_opening_tag_behind(front, t, tag.start, word, tag.body);
        lemma_closes_behind(front, t, tag.close);
        assert forall|i: int| moved.body <= i < moved.close implies !#[trigger] closes_at(
            whole,
            i,
        ) by {
            lemma_closes_behind(front, t, i - n);
            assert(!closes_at(t, i - n));
        }
        assert(is_opening_tag(whole, moved.start, word + n, moved.body));
        assert(is_server_tag(whole, moved));
    }
    if is_server_tag(whole, moved) {
        let word = choose|word: int| is_opening_tag(whole, moved.start, word, moved.body);
        lemma_opening_tag_behind(front, t, tag.start, word - n, tag.body);
        lemma_closes_behind(front, t, tag.close);
        assert forall|i: int| tag.body <= i < tag.close implies !#[trigger] closes_at(t, i) by {
            lemma_closes_behind(front, t, i);
            assert(!closes_at(whole, i + n));
        }
        assert(is_opening_tag(t, tag.start, word - n, tag.body));
        assert(is_server_tag(t, tag));
    }
}

proof fn lemma_begins_behind(front: Seq<char>, t: Seq<char>, p: int)
    requires
        0 <= p,
    ensures
        begins_server_tag(t, p) <==> begins_server_tag(front + t, p + front.len()),
        begins_server_tag(t, p) ==> server_tag_at(front + t, p + front.len()) == shifted_tag(
            server_tag_at(t, p),
            front.len() as int,
        ),
{
    let n = front.len() as int;
    let whole = front + t;
    if begins_server_tag(t, p) {
        let tag = server_tag_at(t, p);
        lemma_server_tag_behind(front, t, tag);
        assert(is_server_tag(whole, shifted_tag(tag, n)));
        assert(begins_server_tag(whole, p + n));
        law_tag_is_determined_by_its_start(
            whole,
            server_tag_at(whole, p + n),
            shifted_tag(tag, n),
        );
    }
    if begins_server_tag(whole, p + n) {
        let moved = server_tag_at(whole, p + n);
        let tag = shifted_tag(moved, -n);
        assert(shifted_tag(tag, n) == moved);
        lemma_server_tag_behind(front, t, tag);
        assert(is_server_tag(t, tag));
    }
}

#[verifier::rlimit(30)]
proof fn lemma_server_tags_from_behind(front: Seq<char>, t: Seq<char>, p: int)
    requires
        0 <= p,
    ensures
        server_tags_from(front + t, p + front.len()) == shifted(
            server_tags_from(t, p),
            front.len() as int,
        ),
    decreases t.len() - p,
{
    let n = front.len() as int;
    let whole = front + t;
    if p >= t.len() {
        assert(shifted(server_tags_from(t, p), n) =~= seq![]);
    } else {
        lemma_begins_behind(front, t, p);
        if begins_server_tag(t, p) {
            let tag = server_tag_at(t, p);
            lemma_tag_bounds(t, tag);
            lemma_server_tags_from_behind(front, t, tag.end);
            let rest = server_tags_from(t, tag.end);
            assert(shifted(seq![tag] + rest, n) =~= seq![shifted_tag(tag, n)] + shifted(rest, n));
        } else {
            lemma_server_tags_from_behind(front, t, p + 1);
        }
    }
}

proof fn lemma_no_tag_begins_in_front(front: Seq<char>, t: Seq<char>, p: int)
    requires
        !front.contains('<'),
        0 <= p <= front.len(),
    ensures
        server_tags_from(front + t, p) == server_tags_from(front + t, front.len() as int),
    decreases front.len() - p,
{
    if p < front.len() {
        let whole = front + t;
        if begins_server_tag(whole, p) {
            let tag = server_tag_at(whole, p);
            let word = choose|word: int| is_opening_tag(whole, tag.start, word, tag.body);
            reveal_strlit("<script");
            assert(whole.subrange(p, p + 7)[0] == '<');
            assert(front[p] == '<');
        }
        lemma_no_tag_begins_in_front(front, t, p + 1);
    }
}

proof fn lemma_rendered_behind(
    front: Seq<char>,
    t: Seq<char>,
    tags: Seq<TagSpan>,
    replacements: Seq<Seq<char>>,
    n: int,
)
    requires
        in_order(tags, t.len() as int),
        0 < n <= tags.len(),
    ensures
        0 <= resume_at(tags, n) <= t.len(),
        rendered_upto(front + t, shifted(tags, front.len() as int), replacements, n) == front
            + rendered_upto(t, tags, replacements, n),
    decreases n,
{
    let k = front.len() as int;
    let moved = shifted(tags, k);
    let whole = front + t;
    let tag = tags[n - 1];
    assert(resume_at(tags, n - 1) <= tag.start);
    let gap = t.subrange(resume_at(tags, n - 1), tag.start);
    let text = replacements[n - 1];
    if n == 1 {
        assert(rendered_upto(whole, moved, replacements, 0) =~= seq![]);
        assert(rendered_upto(t, tags, replacements, 0) =~= seq![]);
        assert(whole.subrange(0, tag.start + k) =~= front + gap);
        assert(seq![] + (front + gap) + text =~= front + (seq![] + gap + text));
    } else {
        lemma_rendered_behind(front, t, tags, replacements, n - 1);
        lemma_subrange_behind(front, t, resume_at(tags, n - 1), tag.start);
        let upto = rendered_upto(t, tags, replacements, n - 1);
        assert(front + upto + gap + text =~= front + (upto + gap + text));
    }
}

proof fn lemma_script_texts_behind(front: Seq<char>, t: Seq<char>)
    requires
        server_tags(front + t) == shifted(server_tags(t), front.len() as int),
    ensures
        script_texts(front + t) == script_texts(t),
{
    let whole = front + t;
    let tags = server_tags(t);
    law_server_tags_are_in_order(t);
    assert forall|i: int| 0 <= i < tags.len() implies #[trigger] script_texts(whole)[i]
        == script_texts(t)[i] by {
        lemma_tag_bounds(t, tags[i]);
        lemma_subrange_behind(front, t, tags[i].body, tags[i].close);
    }
    assert(script_texts(whole) =~= script_texts(t));
}

#[verifier::rlimit(30)]
proof fn lemma_page_behind(
    front: Seq<char>,
    t: Seq<char>,
    tags: Seq<TagSpan>,
    replacements: Seq<Seq<char>>,
)
    requires
        in_order(tags, t.len() as int),
    ensures
        rendered(front + t, shifted(tags, front.len() as int), replacements) == front + rendered(
            t,
            tags,
            replacements,
        ),
{
    let k = front.len() as int;
    let whole = front + t;
    let n = tags.len() as int;
    if n == 0 {
        assert(rendered_upto(whole, shifted(tags, k), replacements, 0) =~= seq![]);
        assert(rendered_upto(t, tags, replacements, 0) =~= seq![]);
        assert(seq![] + whole.skip(0) =~= front + (seq![] + t.skip(0)));
    } else {
        lemma_rendered_behind(front, t, tags, replacements, n);
        let upto = rendered_upto(t, tags, replacements, n);
        let end = resume_at(tags, n);
        assert(whole.skip(end + k) =~= t.skip(end));
        assert(front + upto + t.skip(end) =~= front + (upto + t.skip(end)));
    }
}

/// Text without `<` in front of a page moves its scripts and changes nothing else: the page has the
/// same scripts, and whatever is put in their places, it is rendered as before behind that text.
pub proof fn law_text_in_front_moves_the_scripts(
    front: Seq<char>,
    t: Seq<char>,
    replacements: Seq<Seq<char>>,
)
    requires
        !front.contains('<'),
    ensures
        server_tags(front + t) == shifted(server_tags(t), front.len() as int),
        script_texts(front + t) == script_texts(t),
        rendered(front + t, server_tags(front + t), replacements) == front + rendered(
            t,
            server_tags(t),
            replacements,
        ),
{
    lemma_no_tag_begins_in_front(front, t, 0);
    lemma_server_tags_from_behind(front, t, 0);
    law_server_tags_are_in_order(t);
    lemma_script_texts_behind(front, t);
    lemma_page_behind(front, t, server_tags(t), replacements);
}

/// The page that consists of `a`, a server script with the given white space, attributes and text,
/// and `b`.
pub open spec fn page_with_script(
    a: Seq<char>,
    blank: Seq<char>,
    attributes: Seq<char>,
    body: Seq<char>,
    b: Seq<char>,
) -> Seq<char> {
    a + "<script"@ + blank + "server"@ + attributes + seq!['>'] + body + "</script>"@ + b
}

/// Such text is a server script wherever in a page it stands: `<script`, white space, `server`,
/// anything without `>`, `>`, and then any text up to the next `</script>`.
pub proof fn law_such_text_is_a_server_script(
    a: Seq<char>,
    blank: Seq<char>,
    attributes: Seq<char>,
    body: Seq<char>,
    b: Seq<char>,
)
    requires
        blank.len() > 0,
        is_blank(blank),
        !attributes.contains('>'),
        forall|i: int|
            0 <= i < body.len() ==> #[trigger] (body + "</script>"@ + b).subrange(i, i + 9)
                != "</script>"@,
    ensures
        ({
            let at = a.len() + 7 + blank.len() + 6 + attributes.len() + 1;
            is_server_tag(
                page_with_script(a, blank, attributes, body, b),
                TagSpan {
                    start: a.len() as int,
                    body: at as int,
                    close: (at + body.len()) as int,
                    end: (at + body.len() + 9) as int,
                },
            )
        }),
{
    reveal_strlit("<script");
    reveal_strlit("server");
    reveal_strlit("</script>");
    let t = page_with_script(a, blank, attributes, body, b);
    let start = a.len() as int;
    let word = start + 7 + blank.len();
    let at = word + 6 + attributes.len() + 1;
    let tail = body + "</script>"@ + b;
    let head = a + "<script"@ + blank + "server"@ + attributes + seq!['>'];
    assert(t =~= head + tail);
    assert(head.len() == at);
    assert(t.subrange(start, start + 7) =~= "<script"@);
    assert(t.subrange(word, word + 6) =~= "server"@);
    assert forall|i: int| start + 7 <= i < word implies is_white_space(#[trigger] t[i]) by {
        assert(t[i] == blank[i - start - 7]);
    }
    assert forall|i: int| word + 6 <= i < at - 1 implies #[trigger] t[i] != '>' by {
        assert(t[i] == attributes[i - word - 6]);
        assert(attributes.contains(attributes[i - word - 6]));
    }
    assert(t[at - 1] == '>');
    assert(is_opening_tag(t, start, word, at));
    let close = at + body.len();
    assert(t.subrange(close, close + 9) =~= "</script>"@);
    assert(closes_at(t, close));
    assert forall|i: int| at <= i < close implies !#[trigger] closes_at(t, i) by {
        assert(t.subrange(i, i + 9) =~= tail.subrange(i - at, i - at + 9));
    }
    let tag = TagSpan { start, body: at, close, end: close + 9 };
    assert(is_opening_tag(t, tag.start, word, tag.body));
    assert(is_server_tag(t, tag));
}

proof fn lemma_no_tag_without_sign(t: Seq<char>, p: int)
    requires
        0 <= p <= t.len(),
        forall|i: int| p <= i < t.len() ==> #[trigger] t[i] != '<',
    ensures
        server_tags_from(t, p) == Seq::<TagSpan>::empty(),
    decreases t.len() - p,
{
    if p < t.len() {
        if begins_server_tag(t, p) {
            let tag = server_tag_at(t, p);
            let word = choose|word: int| is_opening_tag(t, tag.start, word, tag.body);
            reveal_strlit("<script");
            assert(t.subrange(p, p + 7)[0] == '<');
        }
        lemma_no_tag_without_sign(t, p + 1);
    }
}

/// The one server script between texts without `<` is found, with the whole of its text, and it is
/// the only one; so the page is rendered as the text before it, the whole of what stands for it, and
/// the text behind it.
pub proof fn law_page_with_one_script(
    a: Seq<char>,
    blank: Seq<char>,
    attributes: Seq<char>,
    body: Seq<char>,
    b: Seq<char>,
    replacement: Seq<char>,
)
    requires
        blank.len() > 0,
        is_blank(blank),
        !attributes.contains('>'),
        forall|i: int|
            0 <= i < body.len() ==> #[trigger] (body + "</script>"@ + b).subrange(i, i + 9)
                != "</script>"@,
        !a.contains('<'),
        !b.contains('<'),
    ensures
        ({
            let t = page_with_script(a, blank, attributes, body, b);
            &&& server_tags(t).len() == 1
            &&& script_texts(t) == seq![body]
            &&& rendered(t, server_tags(t), seq![replacement]) == a + replacement + b
        }),
{
    reveal_strlit("<script");
    reveal_strlit("server");
    reveal_strlit("</script>");
    let t = page_with_script(a, blank, attributes, body, b);
    let at = a.len() + 7 + blank.len() + 6 + attributes.len() + 1;
    let tag = TagSpan {
        start: a.len() as int,
        body: at as int,
        close: (at + body.len()) as int,
        end: (at + body.len() + 9) as int,
    };
    law_such_text_is_a_server_script(a, blank, attributes, body, b);
    let rest = "<script"@ + blank + "server"@ + attributes + seq!['>'] + body + "</script>"@ + b;
    assert(t =~= a + rest);
    lemma_no_tag_begins_in_front(a, rest, 0);
    assert(begins_server_tag(t, tag.start));
    law_tag_is_determined_by_its_start(t, server_tag_at(t, tag.start), tag);
    assert forall|i: int| tag.end <= i < t.len() implies #[trigger] t[i] != '<' by {
        assert(t[i] == b[i - tag.end]);
        assert(b.contains(b[i - tag.end]));
    }
    assert(t.len() == tag.end + b.len());
    lemma_no_tag_without_sign(t, tag.end);
    assert(server_tags(t) =~= seq![tag]);
    assert(t.subrange(tag.body, tag.close) =~= body);
    assert(script_texts(t) =~= seq![body]);
    law_page_around_one_tag(t, tag, replacement);
    assert(t.take(tag.start) =~= a);
    assert(t.skip(tag.end) =~= b);
}

} // verus!
