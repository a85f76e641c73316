//! The parts of which a rendered page consists.
use crate::tags::{
    are_server_scripts, byte_offset, in_order, is_server_tag, law_server_tags_are_in_order,
    lemma_byte_offset_between, lemma_cut_at_byte_offset, lemma_tag_bounds, rendered, rendered_upto,
    resume_at, server_tags, texts_of, ScriptBlock, TagSpan, SERVER_SCRIPT,
};
use vstd::prelude::*;
use vstd::seq_lib::*;
use vstd::utf8::*;

verus! {

proof fn lemma_parts_upto(
    t: Seq<char>,
    tags: Seq<TagSpan>,
    replacements: Seq<Seq<char>>,
    f: spec_fn(int) -> Seq<char>,
    n: int,
)
    requires
        0 <= n <= tags.len(),
        forall|k: int|
            0 <= k < tags.len() ==> #[trigger] f(2 * k) == t.subrange(
                if k == 0 {
                    0
                } else {
                    tags[k - 1].end
                },
                tags[k].start,
            ),
        forall|k: int| 0 <= k < tags.len() ==> #[trigger] f(2 * k + 1) == replacements[k],
    ensures
        Seq::new((2 * n) as nat, f).flatten() == rendered_upto(t, tags, replacements, n),
    decreases n,
{
    if n == 0 {
        assert(Seq::new(0, f) =~= Seq::<Seq<char>>::empty());
        assert(Seq::<Seq<char>>::empty().flatten() =~= Seq::<char>::empty());
    } else {
        let k = n - 1;
        lemma_parts_upto(t, tags, replacements, f, k);
        let before = Seq::new((2 * k) as nat, f);
        before.lemma_flatten_push(f(2 * k));
        before.push(f(2 * k)).lemma_flatten_push(f(2 * k + 1));
        assert(Seq::new((2 * n) as nat, f) =~= before.push(f(2 * k)).push(f(2 * k + 1)));
    }
}

/// A rendered page is, one behind the other: what stands before the first tag, the whole of what
/// stands for it, what stands between it and the next tag, the whole of what stands for that, and so
/// on, and at the end what stands behind the last tag.
pub proof fn law_rendered_page_is_its_parts(
    t: Seq<char>,
    tags: Seq<TagSpan>,
    replacements: Seq<Seq<char>>,
)
    requires
        in_order(tags, t.len() as int),
        replacements.len() == tags.len(),
    ensures
        rendered(t, tags, replacements) == Seq::new(
            (2 * tags.len() + 1) as nat,
            |j: int|
                if j % 2 == 1 {
                    replacements[j / 2]
                } else {
                    t.subrange(
                        if j == 0 {
                            0
                        } else {
                            tags[j / 2 - 1].end
                        },
                        if j == 2 * tags.len() {
                            t.len() as int
                        } else {
                            tags[j / 2].start
                        },
                    )
                },
        ).flatten(),
{
    let f = |j: int|
        if j % 2 == 1 {
            replacements[j / 2]
        } else {
            t.subrange(
                if j == 0 {
                    0
                } else {
                    tags[j / 2 - 1].end
                },
                if j == 2 * tags.len() {
                    t.len() as int
                } else {
                    tags[j / 2].start
                },
            )
        };
    let n = tags.len() as int;
    lemma_parts_upto(t, tags, replacements, f, n);
    let before = Seq::new((2 * n) as nat, f);
    before.lemma_flatten_push(f(2 * n));
    assert(Seq::new((2 * n + 1) as nat, f) =~= before.push(f(2 * n)));
    if n > 0 {
        assert(resume_at(tags, n - 1) <= tags[n - 1].start);
        lemma_resume_is_not_negative(tags, t.len() as int, n);
    }
    assert(f(2 * n) =~= t.skip(resume_at(tags, n)));
}

proof fn lemma_resume_is_not_negative(tags: Seq<TagSpan>, len: int, n: int)
    requires
        in_order(tags, len),
        0 <= n <= tags.len(),
    ensures
        0 <= resume_at(tags, n),
        n > 0 ==> resume_at(tags, n) <= len,
    decreases n,
{
    if n > 0 {
        lemma_resume_is_not_negative(tags, len, n - 1);
        assert(resume_at(tags, n - 1) <= tags[n - 1].start < tags[n - 1].end <= len);
    }
}

/// A page with one tag is rendered as what stands before the tag, the whole of what stands for it,
/// and what stands behind it.
pub proof fn law_page_around_one_tag(t: Seq<char>, tag: TagSpan, replacement: Seq<char>)
    requires
        0 <= tag.start < tag.end <= t.len(),
    ensures
        rendered(t, seq![tag], seq![replacement]) == t.take(tag.start) + replacement + t.skip(
            tag.end,
        ),
{
    let tags = seq![tag];
    let all = seq![replacement];
    assert(rendered_upto(t, tags, all, 0) =~= Seq::<char>::empty());
    assert(rendered_upto(t, tags, all, 1) =~= t.take(tag.start) + replacement);
}

/// The blocks of a page are all its server scripts: of each the whole text between its tags, and the
/// bytes of the page from the beginning of the opening tag to the end of the closing tag.
pub proof fn law_blocks_are_the_scripts(blocks: Seq<ScriptBlock>, t: Seq<char>)
    requires
        are_server_scripts(blocks, t),
    ensures
        blocks.len() == server_tags(t).len(),
        forall|i: int|
            #![trigger blocks[i]]
            0 <= i < blocks.len() ==> {
                let tag = server_tags(t)[i];
                &&& is_server_tag(t, tag)
                &&& blocks[i].content@ == t.subrange(tag.body, tag.close)
                &&& encode_utf8(t).subrange(0, blocks[i].start_pos as int) == encode_utf8(
                    t.take(tag.start),
                )
                &&& encode_utf8(t).subrange(0, blocks[i].end_pos as int) == encode_utf8(
                    t.take(tag.end),
                )
            },
{
    law_server_tags_are_in_order(t);
    assert forall|i: int| #![trigger blocks[i]] 0 <= i < blocks.len() implies {
        let tag = server_tags(t)[i];
        &&& is_server_tag(t, tag)
        &&& blocks[i].content@ == t.subrange(tag.body, tag.close)
        &&& encode_utf8(t).subrange(0, blocks[i].start_pos as int) == encode_utf8(
            t.take(tag.start),
        )
        &&& encode_utf8(t).subrange(0, blocks[i].end_pos as int) == encode_utf8(t.take(tag.end))
    } by {
        let tag = server_tags(t)[i];
        assert(blocks[i].is_block(t, tag));
        lemma_tag_bounds(t, tag);
        lemma_cut_at_byte_offset(t, tag.start);
        lemma_cut_at_byte_offset(t, tag.end);
    }
}

/// What a server script is: `<script`, white space, `server`, anything up to the next `>`, then the
/// script's own text, which holds no `</script>`, and `</script>`.
pub proof fn law_what_a_server_script_is(t: Seq<char>, tag: TagSpan)
    requires
        is_server_tag(t, tag),
    ensures
        t.subrange(tag.start, tag.start + 7) == "<script"@,
        t[tag.body - 1] == '>',
        t.subrange(tag.close, tag.end) == "</script>"@,
        forall|i: int|
            tag.body <= i < tag.close ==> i + 9 > t.len() || #[trigger] t.subrange(i, i + 9)
                != "</script>"@,
{
    assert forall|i: int| tag.body <= i < tag.close implies i + 9 > t.len() || #[trigger] t.subrange(
        i,
        i + 9,
    ) != "</script>"@ by {
        assert(!crate::tags::closes_at(t, i));
    }
}

/// The texts of a list of strings are those of the strings, one by one.
pub proof fn law_texts_of_a_list(list: Seq<String>)
    ensures
        texts_of(list).len() == list.len(),
        forall|i: int| 0 <= i < list.len() ==> #[trigger] texts_of(list)[i] == list[i]@,
{
}

/// The pattern that server scripts are found by.
pub proof fn law_pattern_of_a_server_script()
    ensures
        SERVER_SCRIPT@ == r#"<script\s+server[^>]*>([\s\S]*?)</script>"#@,
{
}

} // verus!
