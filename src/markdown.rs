use vstd::prelude::*;
use crate::link::{Link, LinkModel, clone_opt, links_view, opt_view};
use crate::markdown_guard::plain_markdown;

verus! {

/// The line that shows one link: `[url](url)` and a blank line.
pub open spec fn link_line(url: Seq<char>) -> Seq<char> {
    seq!['['] + url + seq![']', '('] + url + seq![')', '\n', '\n']
}

/// The heading of a category: `## category` on a line of its own.
pub open spec fn heading_line(category: Seq<char>) -> Seq<char> {
    seq!['\n', '#', '#', ' '] + category + seq!['\n']
}

/// The lines of the links filed under `category`, in order.
pub open spec fn block_of(links: Seq<LinkModel>, category: Option<Seq<char>>) -> Seq<char>
    decreases links.len(),
{
    if links.len() == 0 {
        Seq::empty()
    } else {
        let rest = block_of(links.drop_last(), category);
        if links.last().category == category {
            rest + link_line(links.last().url)
        } else {
            rest
        }
    }
}

/// The categories of the links, each once, in the order in which they first appear.
pub open spec fn categories_of(links: Seq<LinkModel>) -> Seq<Seq<char>>
    decreases links.len(),
{
    if links.len() == 0 {
        Seq::empty()
    } else {
        let seen = categories_of(links.drop_last());
        match links.last().category {
            Some(c) => if seen.contains(c) {
                seen
            } else {
                seen.push(c)
            },
            None => seen,
        }
    }
}

/// For each of `categories` in turn, its heading and then its links.
pub open spec fn sections_of(links: Seq<LinkModel>, categories: Seq<Seq<char>>) -> Seq<char>
    decreases categories.len(),
{
    if categories.len() == 0 {
        Seq::empty()
    } else {
        let c = categories.last();
        sections_of(links, categories.drop_last()) + heading_line(c) + block_of(links, Some(c))
    }
}

/// The Markdown index of the links: first the links without a category, under
/// no heading, then each category under its own heading, in order of first
/// appearance.
pub open spec fn markdown_of(links: Seq<LinkModel>) -> Seq<char> {
    block_of(links, None) + sections_of(links, categories_of(links))
}

/// The views of a sequence of strings.
pub open spec fn strings_view(v: Seq<String>) -> Seq<Seq<char>> {
    v.map_values(|s: String| s@)
}

fn push_link_line(out: &mut String, url: &String)
    ensures
        final(out)@ == old(out)@ + link_line(url@),
{
    out.append("[");
    out.append(url.as_str());
    out.append("](");
    out.append(url.as_str());
    out.append(")\n\n");
    proof {
        reveal_strlit("[");
        reveal_strlit("](");
        reveal_strlit(")\n\n");
    }
    assert(out@ =~= old(out)@ + link_line(url@));
}

fn push_heading_line(out: &mut String, category: &String)
    ensures
        final(out)@ == old(out)@ + heading_line(category@),
{
    out.append("\n## ");
    out.append(category.as_str());
    out.append("\n");
    proof {
        reveal_strlit("\n## ");
        reveal_strlit("\n");
    }
    assert(out@ =~= old(out)@ + heading_line(category@));
}

fn in_category(link: &Link, category: &Option<String>) -> (r: bool)
    ensures
        r == (link@.category == opt_view(*category)),
{
    match (&link.category, category) {
        (Some(a), Some(b)) => *a == *b,
        (None, None) => true,
        _ => false,
    }
}

/// Appends the lines of the links filed under `category`.
fn push_block(out: &mut String, links: &Vec<Link>, category: &Option<String>)
    ensures
        final(out)@ == old(out)@ + block_of(links_view(links@), opt_view(*category)),
{
    let ghost lv = links_view(links@);
    let mut i: usize = 0;
    while i < links.len()
        invariant
            i <= links.len(),
            lv == links_view(links@),
            out@ == old(out)@ + block_of(lv.take(i as int), opt_view(*category)),
        decreases links.len() - i,
    {
        assert(lv.take(i + 1).drop_last() =~= lv.take(i as int));
        if in_category(&links[i], category) {
            push_link_line(out, &links[i].url);
        }
        i += 1;
    }
    assert(lv.take(links.len() as int) =~= lv);
}

fn contains_string(v: &Vec<String>, s: &String) -> (r: bool)
    ensures
        r == strings_view(v@).contains(s@),
{
    let mut i: usize = 0;
    while i < v.len()
        invariant
            i <= v.len(),
            forall|j: int| 0 <= j < i ==> v@[j]@ != s@,
        decreases v.len() - i,
    {
        if v[i] == *s {
            assert(strings_view(v@)[i as int] == s@);
            return true;
        }
        i += 1;
    }
    assert(!strings_view(v@).contains(s@)) by {
        if strings_view(v@).contains(s@) {
            let j = choose|j: int| 0 <= j < strings_view(v@).len() && strings_view(v@)[j] == s@;
            assert(v@[j]@ == s@);
        }
    }
    false
}

/// The categories of the links, each once, in the order of first appearance.
fn categories(links: &Vec<Link>) -> (r: Vec<String>)
    ensures
        strings_view(r@) == categories_of(links_view(links@)),
{
    let ghost lv = links_view(links@);
    let mut seen: Vec<String> = Vec::new();
    let mut i: usize = 0;
    while i < links.len()
        invariant
            i <= links.len(),
            lv == links_view(links@),
            strings_view(seen@) == categories_of(lv.take(i as int)),
        decreases links.len() - i,
    {
        assert(lv.take(i + 1).drop_last() =~= lv.take(i as int));
        match &links[i].category {
            Some(c) => {
                if !contains_string(&seen, c) {
                    seen.push(c.clone());
                    assert(strings_view(seen@) =~= categories_of(lv.take(i as int)).push(c@));
                }
            },
            None => {},
        }
        i += 1;
    }
    assert(lv.take(links.len() as int) =~= lv);
    seen
}

/// Renders the links as a Markdown index: the links without a category come
/// first, without a heading; then each category, in the order in which it
/// first appears, under a `## category` heading with its links in order.
pub fn format_data(links: &Vec<Link>) -> (r: String)
    ensures
        r@ == markdown_of(links_view(links@)),
{
    let ghost lv = links_view(links@);
    let mut out = String::new();
    push_block(&mut out, links, &None);
    let cats = categories(links);
    let ghost cv = strings_view(cats@);
    let mut i: usize = 0;
    while i < cats.len()
        invariant
            i <= cats.len(),
            lv == links_view(links@),
            cv == strings_view(cats@),
            cv == categories_of(lv),
            out@ == block_of(lv, None) + sections_of(lv, cv.take(i as int)),
        decreases cats.len() - i,
    {
        assert(cv.take(i + 1).drop_last() =~= cv.take(i as int));
        push_heading_line(&mut out, &cats[i]);
        let category = Some(cats[i].clone());
        push_block(&mut out, links, &category);
        assert(out@ =~= block_of(lv, None) + sections_of(lv, cv.take(i + 1)));
        i += 1;
    }
    assert(cv.take(cats.len() as int) =~= cv);
    out
}

/// A piece of inline Markdown, as far as the index reads it.
#[derive(Debug)]
pub enum MdSpan {
    /// Plain text.
    Text(String),
    /// A link: its text, then its destination.
    Link(String, String),
    /// Anything else.
    Other,
}

/// A block of a Markdown document, as far as the index reads it.
#[derive(Debug)]
pub enum MdBlock {
    /// A heading, with its inline content.
    Header(Vec<MdSpan>),
    /// A paragraph, with its inline content.
    Paragraph(Vec<MdSpan>),
    /// Anything else.
    Other,
}

/// The blocks that the `markdown` crate's tokenizer finds in a text.
pub uninterp spec fn markdown_blocks(text: Seq<char>) -> Seq<MdBlock>;

/// Relies on `markdown::tokenize`: the blocks of the text, in order, each
/// heading and paragraph with its inline pieces in order. The tokenizer
/// slices each line holding a code fence at byte three, and parses block
/// quotes and list items again, one level of the call stack per level of
/// nesting: plain text leaves out both.
#[verifier::external_body]
fn tokenize(contents: &str) -> (r: Vec<MdBlock>)
    requires
        plain_markdown(contents@),
    ensures
        r@ == markdown_blocks(contents@),
{
    let spans = |v: Vec<markdown::Span>| -> Vec<MdSpan> {
        v.into_iter().map(|s| match s {
            markdown::Span::Text(t) => MdSpan::Text(t),
            markdown::Span::Link(text, url, _) => MdSpan::Link(text, url),
            _ => MdSpan::Other,
        }).collect()
    };
    markdown::tokenize(contents).into_iter().map(|b| match b {
        markdown::Block::Header(v, _) => MdBlock::Header(spans(v)),
        markdown::Block::Paragraph(v) => MdBlock::Paragraph(spans(v)),
        _ => MdBlock::Other,
    }).collect()
}

/// The category in force after a heading with these pieces: the last
/// non-empty plain text of the heading, or `current` where it has none.
pub open spec fn heading_text(spans: Seq<MdSpan>, current: Option<Seq<char>>) -> Option<Seq<char>>
    decreases spans.len(),
{
    if spans.len() == 0 {
        current
    } else {
        match spans.last() {
            MdSpan::Text(t) => if t@.len() > 0 {
                Some(t@)
            } else {
                heading_text(spans.drop_last(), current)
            },
            _ => heading_text(spans.drop_last(), current),
        }
    }
}

/// The links of a paragraph, each filed under `category`, in order.
pub open spec fn paragraph_links(spans: Seq<MdSpan>, category: Option<Seq<char>>) -> Seq<LinkModel>
    decreases spans.len(),
{
    if spans.len() == 0 {
        Seq::empty()
    } else {
        let rest = paragraph_links(spans.drop_last(), category);
        match spans.last() {
            MdSpan::Link(text, _) => rest.push(LinkModel { url: text@, category }),
            _ => rest,
        }
    }
}

/// The category in force after the blocks: that of the last heading, if any.
pub open spec fn category_after(blocks: Seq<MdBlock>) -> Option<Seq<char>>
    decreases blocks.len(),
{
    if blocks.len() == 0 {
        None
    } else {
        let before = category_after(blocks.drop_last());
        match blocks.last() {
            MdBlock::Header(spans) => heading_text(spans@, before),
            _ => before,
        }
    }
}

/// The links of a document: each link of a paragraph, filed under the
/// category of the last heading before it.
pub open spec fn links_of_blocks(blocks: Seq<MdBlock>) -> Seq<LinkModel>
    decreases blocks.len(),
{
    if blocks.len() == 0 {
        Seq::empty()
    } else {
        let rest = links_of_blocks(blocks.drop_last());
        match blocks.last() {
            MdBlock::Paragraph(spans) => rest + paragraph_links(spans@, category_after(blocks.drop_last())),
            _ => rest,
        }
    }
}

/// The links that a Markdown text holds.
pub open spec fn links_of_markdown(text: Seq<char>) -> Seq<LinkModel> {
    links_of_blocks(markdown_blocks(text))
}

/// Reads the links out of tokenized Markdown: a heading sets the category of
/// the links that follow it; each link of a paragraph is taken with the
/// category in force.
pub fn links_from_blocks(blocks: &Vec<MdBlock>) -> (r: Vec<Link>)
    ensures
        links_view(r@) == links_of_blocks(blocks@),
        forall|i: int| 0 <= i < r.len() ==> (#[trigger] r@[i])@.wf(),
{
    let mut links: Vec<Link> = Vec::new();
    let mut current: Option<String> = None;
    let mut i: usize = 0;
    while i < blocks.len()
        invariant
            i <= blocks.len(),
            links_view(links@) == links_of_blocks(blocks@.take(i as int)),
            opt_view(current) == category_after(blocks@.take(i as int)),
            forall|k: int| 0 <= k < links.len() ==> (#[trigger] links@[k])@.wf(),
            match opt_view(current) {
                Some(c) => c.len() > 0,
                None => true,
            },
        decreases blocks.len() - i,
    {
        assert(blocks@.take(i + 1).drop_last() =~= blocks@.take(i as int));
        match &blocks[i] {
            MdBlock::Header(spans) => {
                let ghost before = opt_view(current);
                let mut j: usize = 0;
                while j < spans.len()
                    invariant
                        j <= spans.len(),
                        opt_view(current) == heading_text(spans@.take(j as int), before),
                        forall|k: int| 0 <= k < links.len() ==> (#[trigger] links@[k])@.wf(),
                        match opt_view(current) {
                            Some(c) => c.len() > 0,
                            None => true,
                        },
                    decreases spans.len() - j,
                {
                    assert(spans@.take(j + 1).drop_last() =~= spans@.take(j as int));
                    match &spans[j] {
                        MdSpan::Text(t) => {
                            if !t.as_str().is_empty() {
                                current = Some(t.clone());
                            }
                        },
                        _ => {},
                    }
                    j += 1;
                }
                assert(spans@.take(spans.len() as int) =~= spans@);
                assert(links_view(links@) =~= links_of_blocks(blocks@.take(i + 1)));
            },
            MdBlock::Paragraph(spans) => {
                let ghost start = links_view(links@);
                let mut j: usize = 0;
                while j < spans.len()
                    invariant
                        j <= spans.len(),
                        links_view(links@) == start + paragraph_links(spans@.take(j as int), opt_view(current)),
                        forall|k: int| 0 <= k < links.len() ==> (#[trigger] links@[k])@.wf(),
                        match opt_view(current) {
                            Some(c) => c.len() > 0,
                            None => true,
                        },
                    decreases spans.len() - j,
                {
                    assert(spans@.take(j + 1).drop_last() =~= spans@.take(j as int));
                    match &spans[j] {
                        MdSpan::Link(text, _) => {
                            let link = Link::new(text.clone(), clone_opt(&current));
                            let ghost prev = links@;
                            let ghost lm = link@;
                            links.push(link);
                            assert(links_view(links@) =~= links_view(prev).push(lm));
                            assert(links_view(links@) =~= start + paragraph_links(spans@.take(j + 1), opt_view(current)));
                        },
                        _ => {},
                    }
                    j += 1;
                }
                assert(spans@.take(spans.len() as int) =~= spans@);
            },
            MdBlock::Other => {},
        }
        i += 1;
    }
    assert(blocks@.take(blocks.len() as int) =~= blocks@);
    links
}

/// Reads the links out of a Markdown index, each with the category of the
/// last heading before it.
pub fn parse_links(contents: &str) -> (r: Vec<Link>)
    requires
        plain_markdown(contents@),
    ensures
        links_view(r@) == links_of_markdown(contents@),
        forall|i: int| 0 <= i < r.len() ==> (#[trigger] r@[i])@.wf(),
{
    let blocks = tokenize(contents);
    links_from_blocks(&blocks)
}

/// The Markdown index after `link` is added to the index whose text is `old`:
/// an empty index gets the new link alone; otherwise the links read out of
/// the old text, then the new one, are rendered again.
pub open spec fn markdown_after_add(old: Seq<char>, link: LinkModel) -> Seq<char> {
    if old.len() == 0 {
        markdown_of(seq![link])
    } else {
        markdown_of(links_of_markdown(old).push(link))
    }
}

/// The new text of a Markdown index whose text was `old_contents`, once
/// `link` is added to it.
pub fn markdown_with_link(old_contents: &str, link: &Link) -> (r: String)
    requires
        plain_markdown(old_contents@),
    ensures
        r@ == markdown_after_add(old_contents@, link@),
{
    let mut links: Vec<Link> = if old_contents.is_empty() {
        Vec::new()
    } else {
        parse_links(old_contents)
    };
    let ghost prev = links@;
    links.push(link.duplicate());
    assert(links_view(links@) =~= links_view(prev).push(link@));
    proof {
        if old_contents@.len() == 0 {
            assert(links_view(links@) =~= seq![link@]);
        }
    }
    format_data(&links)
}

/// Adding a link with a category to an empty index gives exactly one heading,
/// that of the category, followed by exactly one link line.
pub proof fn lemma_add_to_empty_index(link: LinkModel, category: Seq<char>)
    requires
        link.category == Some(category),
    ensures
        markdown_after_add(Seq::empty(), link) == heading_line(category) + link_line(link.url),
{
    let links = seq![link];
    reveal_with_fuel(categories_of, 2);
    reveal_with_fuel(block_of, 2);
    reveal_with_fuel(sections_of, 2);
    assert(links.drop_last() =~= Seq::<LinkModel>::empty());
    assert(categories_of(links) =~= seq![category]);
    assert(seq![category].drop_last() =~= Seq::<Seq<char>>::empty());
    assert(block_of(links, Some(category)) == link_line(link.url));
    assert(block_of(links, None) =~= Seq::<char>::empty());
    assert(markdown_of(links) =~= heading_line(category) + link_line(link.url));
}

/// Two links with the same category are rendered under one heading of that
/// category, the first link before the second.
pub proof fn lemma_same_category_one_heading(first: LinkModel, second: LinkModel, category: Seq<char>)
    requires
        first.category == Some(category),
        second.category == Some(category),
    ensures
        markdown_of(seq![first, second])
            == heading_line(category) + link_line(first.url) + link_line(second.url),
{
    let links = seq![first, second];
    reveal_with_fuel(categories_of, 3);
    reveal_with_fuel(block_of, 3);
    reveal_with_fuel(sections_of, 2);
    assert(links.drop_last() =~= seq![first]);
    assert(seq![first].drop_last() =~= Seq::<LinkModel>::empty());
    assert(categories_of(seq![first]) =~= seq![category]);
    assert(seq![category].contains(category)) by {
        assert(seq![category][0] == category);
    }
    assert(categories_of(links) =~= seq![category]);
    assert(seq![category].drop_last() =~= Seq::<Seq<char>>::empty());
    assert(block_of(links, None) =~= Seq::<char>::empty());
    assert(block_of(links, Some(category)) =~= link_line(first.url) + link_line(second.url));
    assert(markdown_of(links) =~= heading_line(category) + link_line(first.url) + link_line(second.url));
}

/// In any index each category has one heading: the categories rendered are
/// distinct, and they are exactly the categories of the links.
pub proof fn lemma_categories_distinct(links: Seq<LinkModel>)
    ensures
        categories_of(links).no_duplicates(),
        forall|c: Seq<char>| #[trigger] categories_of(links).contains(c)
            <==> exists|i: int| 0 <= i < links.len() && links[i].category == Some(c),
    decreases links.len(),
{
    if links.len() > 0 {
        let prefix = links.drop_last();
        lemma_categories_distinct(prefix);
        assert forall|c: Seq<char>|
            (exists|i: int| 0 <= i < links.len() && links[i].category == Some(c))
            implies #[trigger] categories_of(links).contains(c) by {
            if exists|i: int| 0 <= i < links.len() && links[i].category == Some(c) {
                let i = choose|i: int| 0 <= i < links.len() && links[i].category == Some(c);
                if i < links.len() - 1 {
                    assert(prefix[i] == links[i]);
                    assert(categories_of(prefix).contains(c));
                    match links.last().category {
                        Some(d) => if !categories_of(prefix).contains(d) {
                            assert(categories_of(links) == categories_of(prefix).push(d));
                            let k = choose|k: int| 0 <= k < categories_of(prefix).len() && categories_of(prefix)[k] == c;
                            assert(categories_of(links)[k] == c);
                        },
                        None => {},
                    }
                } else {
                    match links.last().category {
                        Some(d) => if !categories_of(prefix).contains(d) {
                            assert(categories_of(links) == categories_of(prefix).push(d));
                            assert(categories_of(links)[categories_of(prefix).len() as int] == c);
                        },
                        None => {},
                    }
                }
            }
        }
        assert forall|c: Seq<char>| #[trigger] categories_of(links).contains(c)
            implies exists|i: int| 0 <= i < links.len() && links[i].category == Some(c) by {
            if categories_of(links).contains(c) {
                if categories_of(prefix).contains(c) {
                    let i = choose|i: int| 0 <= i < prefix.len() && prefix[i].category == Some(c);
                    assert(links[i] == prefix[i]);
                } else {
                    match links.last().category {
                        Some(d) => {
                            assert(categories_of(links) == categories_of(prefix).push(d));
                            let k = choose|k: int| 0 <= k < categories_of(links).len() && categories_of(links)[k] == c;
                            if k < categories_of(prefix).len() {
                                assert(categories_of(prefix)[k] == c);
                            }
                            assert(links[links.len() - 1].category == Some(c));
                        },
                        None => {},
                    }
                }
            }
        }
        match links.last().category {
            Some(d) => if !categories_of(prefix).contains(d) {
                let seen = categories_of(prefix);
                assert forall|a: int, b: int| 0 <= a < b < seen.push(d).len()
                    implies seen.push(d)[a] != seen.push(d)[b] by {
                    if b == seen.len() {
                        assert(seen[a] == seen.push(d)[a]);
                    }
                }
            },
            None => {},
        }
    }
}

/// A heading whose only piece is the plain text `text`.
pub open spec fn is_heading_of(block: MdBlock, text: Seq<char>) -> bool {
    match block {
        MdBlock::Header(spans) => spans@.len() == 1 && match spans@[0] {
            MdSpan::Text(t) => t@ == text,
            _ => false,
        },
        _ => false,
    }
}

/// A paragraph whose only piece is a link with the text `text`.
pub open spec fn is_paragraph_of_link(block: MdBlock, text: Seq<char>) -> bool {
    match block {
        MdBlock::Paragraph(spans) => spans@.len() == 1 && match spans@[0] {
            MdSpan::Link(t, _) => t@ == text,
            _ => false,
        },
        _ => false,
    }
}

/// Reading back an index of one heading followed by a paragraph of one link
/// gives that link under that heading's category.
pub proof fn lemma_heading_then_link(blocks: Seq<MdBlock>, category: Seq<char>, url: Seq<char>)
    requires
        blocks.len() == 2,
        category.len() > 0,
        is_heading_of(blocks[0], category),
        is_paragraph_of_link(blocks[1], url),
    ensures
        links_of_blocks(blocks) == seq![LinkModel { url, category: Some(category) }],
{
    reveal_with_fuel(links_of_blocks, 3);
    reveal_with_fuel(category_after, 3);
    reveal_with_fuel(heading_text, 2);
    reveal_with_fuel(paragraph_links, 2);
    assert(blocks.drop_last() =~= seq![blocks[0]]);
    assert(seq![blocks[0]].drop_last() =~= Seq::<MdBlock>::empty());
    match blocks[0] {
        MdBlock::Header(spans) => {
            assert(spans@.drop_last() =~= Seq::<MdSpan>::empty());
        },
        _ => {},
    }
    assert(category_after(seq![blocks[0]]) == Some(category));
    match blocks[1] {
        MdBlock::Paragraph(spans) => {
            assert(spans@.drop_last() =~= Seq::<MdSpan>::empty());
        },
        _ => {},
    }
    assert(links_of_blocks(seq![blocks[0]]) =~= Seq::<LinkModel>::empty());
    assert(links_of_blocks(blocks) =~= seq![LinkModel { url, category: Some(category) }]);
}

} // verus!
