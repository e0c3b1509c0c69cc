//! Blog posts: reading a post's title, tags and body out of its Markdown source,
//! and assembling the post or its preview as the site serves them.
//!
//! A post's source is laid out by lines: the title (optionally after `"# "`),
//! one line that is skipped, a line of whitespace-separated tags, and then the
//! body. A preview shows the line after the one that follows the tags.
use vstd::prelude::*;
use crate::dates::{date_modified, date_part, iso8601_utc};
use crate::markdown::{comrak_default_html, render_markdown_default};
use crate::model::{string_views, BlogContent};
use crate::text::{
    is_ws, law_join_lines, law_words_are_words, lemma_join_append, lemma_lead_len_is,
    lemma_trail_len_is, in_class, CharClass, trim_start, trim_end, strip_cr,
    concat, strip_ws, law_words_cover, law_lines_have_no_newline,
    chars_of, ends_with, from_index, join, join_spans, line_spans, lines, nth_or_empty, push_char,
    span_seq, spans_within, starts_with, string_of_range, strip_prefix_or_self, trim, trim_span,
    word_spans, words,
};

verus! {

/// The `"# "` that may open a post's title line.
pub open spec fn heading_mark() -> Seq<char> {
    seq!['#', ' ']
}

/// The `".md"` that ends a post's file name.
pub open spec fn md_suffix() -> Seq<char> {
    seq!['.', 'm', 'd']
}

/// The title: the first line, trimmed, without a leading `"# "`.
pub open spec fn blog_title(text: Seq<char>) -> Seq<char> {
    strip_prefix_or_self(trim(nth_or_empty(lines(text), 0)), heading_mark())
}

/// The tags: the words of the third line.
pub open spec fn blog_tags(text: Seq<char>) -> Seq<Seq<char>> {
    words(nth_or_empty(lines(text), 2))
}

/// The body: the lines from the fourth on, joined with `'\n'`.
pub open spec fn blog_body(text: Seq<char>) -> Seq<char> {
    join(from_index(lines(text), 3), seq!['\n'])
}

/// The preview's Markdown: the fifth line followed by `"..."`.
pub open spec fn preview_source(text: Seq<char>) -> Seq<char> {
    nth_or_empty(lines(text), 4) + seq!['.', '.', '.']
}

/// The name of a post's file without its `".md"`; `None` where it lacks one.
pub open spec fn file_stem(name: Seq<char>) -> Option<Seq<char>> {
    if ends_with(name, md_suffix()) {
        Some(name.take(name.len() - 3))
    } else {
        None
    }
}

/// The date shown for a post: the date part of its modification time where that
/// can be formatted, else nothing.
pub open spec fn shown_date(modified: Option<i128>) -> Option<Seq<char>> {
    match modified {
        Some(n) => match iso8601_utc(n) {
            Some(iso) => Some(date_part(iso)),
            None => None,
        },
        None => None,
    }
}

/// What is read out of a post's source.
pub struct BlogParts {
    pub title: String,
    pub tags: Vec<String>,
    /// The Markdown to render: the body of a post, or the source of a preview.
    pub markdown: String,
}

/// The strings that `spans` marks out of `cs`.
fn strings_of_spans(cs: &Vec<char>, spans: &Vec<(usize, usize)>) -> (v: Vec<String>)
    requires
        spans_within(spans@, cs@.len() as int),
    ensures
        string_views(v@) == span_seq(cs@, spans@),
{
    let mut v: Vec<String> = Vec::new();
    let mut i: usize = 0;
    while i < spans.len()
        invariant
            i <= spans@.len(),
            spans_within(spans@, cs@.len() as int),
            string_views(v@) == span_seq(cs@, spans@).take(i as int),
        decreases spans@.len() - i,
    {
        let (a, b) = spans[i];
        assert(spans@[i as int].0 <= spans@[i as int].1 <= cs@.len());
        let s = string_of_range(cs, a, b);
        let ghost old_v = v@;
        v.push(s);
        assert(string_views(v@) =~= string_views(old_v).push(s@));
        assert(span_seq(cs@, spans@).take(i + 1) =~= span_seq(cs@, spans@).take(i as int).push(
            s@,
        ));
        i = i + 1;
    }
    assert(span_seq(cs@, spans@).take(spans@.len() as int) =~= span_seq(cs@, spans@));
    v
}

/// The span of line `i`, or an empty span where there is no such line.
fn line_or_empty(cs: &Vec<char>, spans: &Vec<(usize, usize)>, i: usize) -> (sp: (usize, usize))
    requires
        spans_within(spans@, cs@.len() as int),
    ensures
        sp.0 <= sp.1 <= cs@.len(),
        cs@.subrange(sp.0 as int, sp.1 as int) == nth_or_empty(span_seq(cs@, spans@), i as int),
{
    if i < spans.len() {
        let sp = spans[i];
        assert(spans@[i as int].0 <= spans@[i as int].1 <= cs@.len());
        sp
    } else {
        assert(cs@.subrange(0, 0) =~= Seq::<char>::empty());
        (0, 0)
    }
}

proof fn lemma_strip_heading(cs: Seq<char>, a: int, e: int, marked: bool)
    requires
        0 <= a <= e <= cs.len(),
        marked == (e - a >= 2 && cs[a] == '#' && cs[a + 1] == ' '),
    ensures
        strip_prefix_or_self(cs.subrange(a, e), heading_mark()) == cs.subrange(
            if marked { a + 2 } else { a },
            e,
        ),
{
    let tr = cs.subrange(a, e);
    if marked {
        assert(tr.take(2) =~= heading_mark());
        assert(tr.skip(2) =~= cs.subrange(a + 2, e));
    } else if starts_with(tr, heading_mark()) {
        assert(tr.take(2)[0] == tr[0]);
        assert(tr.take(2)[1] == tr[1]);
    }
}

/// The title of the post whose characters are `cs`, with the spans of its lines.
fn title_of(cs: &Vec<char>, spans: &Vec<(usize, usize)>) -> (t: String)
    requires
        spans_within(spans@, cs@.len() as int),
        span_seq(cs@, spans@) == lines(cs@),
    ensures
        t@ == blog_title(cs@),
{
    let (from, to) = line_or_empty(cs, spans, 0);
    let (a, e) = trim_span(cs, from, to);
    let marked = e - a >= 2 && cs[a] == '#' && cs[a + 1] == ' ';
    let start = if marked {
        a + 2
    } else {
        a
    };
    proof {
        lemma_strip_heading(cs@, a as int, e as int, marked);
    }
    string_of_range(cs, start, e)
}

/// The tags of the post whose characters are `cs`, with the spans of its lines.
fn tags_of(cs: &Vec<char>, spans: &Vec<(usize, usize)>) -> (tags: Vec<String>)
    requires
        spans_within(spans@, cs@.len() as int),
        span_seq(cs@, spans@) == lines(cs@),
    ensures
        string_views(tags@) == blog_tags(cs@),
{
    let (from, to) = line_or_empty(cs, spans, 2);
    let ws = word_spans(cs, from, to);
    strings_of_spans(cs, &ws)
}

/// Reads the title, the tags and the body out of a post's source.
pub fn parse_blog(text: &str) -> (parts: BlogParts)
    ensures
        parts.title@ == blog_title(text@),
        string_views(parts.tags@) == blog_tags(text@),
        parts.markdown@ == blog_body(text@),
        concat(string_views(parts.tags@)) == strip_ws(nth_or_empty(lines(text@), 2)),
        forall|i: int|
            #![trigger parts.tags@[i]]
            0 <= i < parts.tags@.len() ==> parts.tags@[i]@.len() > 0 && forall|j: int|
                0 <= j < parts.tags@[i]@.len() ==> !is_ws(#[trigger] parts.tags@[i]@[j]),
{
    let cs = chars_of(text);
    let spans = line_spans(&cs);
    let title = title_of(&cs, &spans);
    let tags = tags_of(&cs, &spans);
    let markdown = join_spans(&cs, &spans, 3, '\n');
    proof {
        lemma_tags_are_words_of_line(text@, tags@);
    }
    BlogParts { title, tags, markdown }
}

/// Reads the title, the tags and the preview's Markdown out of a post's source.
pub fn parse_blog_preview(text: &str) -> (parts: BlogParts)
    ensures
        parts.title@ == blog_title(text@),
        string_views(parts.tags@) == blog_tags(text@),
        parts.markdown@ == preview_source(text@),
        parts.markdown@ == nth_or_empty(lines(text@), 4) + seq!['.', '.', '.'],
        !parts.markdown@.contains('\n'),
        concat(string_views(parts.tags@)) == strip_ws(nth_or_empty(lines(text@), 2)),
        forall|i: int|
            #![trigger parts.tags@[i]]
            0 <= i < parts.tags@.len() ==> parts.tags@[i]@.len() > 0 && forall|j: int|
                0 <= j < parts.tags@[i]@.len() ==> !is_ws(#[trigger] parts.tags@[i]@[j]),
{
    let cs = chars_of(text);
    let spans = line_spans(&cs);
    let title = title_of(&cs, &spans);
    let tags = tags_of(&cs, &spans);
    let (from, to) = line_or_empty(&cs, &spans, 4);
    let mut markdown = string_of_range(&cs, from, to);
    push_char(&mut markdown, '.');
    push_char(&mut markdown, '.');
    push_char(&mut markdown, '.');
    assert(markdown@ =~= nth_or_empty(lines(text@), 4) + seq!['.', '.', '.']);
    proof {
        lemma_tags_are_words_of_line(text@, tags@);
        law_preview_is_one_line(text@);
    }
    BlogParts { title, tags, markdown }
}

/// The name of a post's file without its `".md"`, where it ends so.
pub fn blog_file_stem(name: &str) -> (stem: Option<String>)
    ensures
        match file_stem(name@) {
            Some(s) => stem matches Some(t) && t@ == s,
            None => stem is None,
        },
{
    let cs = chars_of(name);
    let n = cs.len();
    if n >= 3 && cs[n - 3] == '.' && cs[n - 2] == 'm' && cs[n - 1] == 'd' {
        assert(cs@.skip(n - 3) =~= md_suffix());
        Some(string_of_range(&cs, 0, n - 3))
    } else {
        assert(!ends_with(cs@, md_suffix())) by {
            if ends_with(cs@, md_suffix()) {
                assert(cs@.skip(n - 3)[0] == cs@[n - 3]);
                assert(cs@.skip(n - 3)[1] == cs@[n - 2]);
                assert(cs@.skip(n - 3)[2] == cs@[n - 1]);
            }
        }
        None
    }
}

/// The date shown for a post whose file was last changed `modified` nanoseconds
/// after the Unix epoch, where that time is known.
pub fn date_shown(modified: Option<i128>) -> (d: Option<String>)
    ensures
        match modified {
            Some(n) => match iso8601_utc(n) {
                Some(iso) => d matches Some(t) && t@ == date_part(iso),
                None => d is None,
            },
            None => d is None,
        },
        match shown_date(modified) {
            Some(s) => d matches Some(t) && t@ == s,
            None => d is None,
        },
{
    match modified {
        Some(n) => date_modified(n),
        None => None,
    }
}

/// A post, as the site serves it: its name, the date of its last change (empty
/// where unknown), the title and tags read from its source, and its body as
/// rendered to HTML.
pub fn blog_post(blog_name: String, parts: BlogParts, html: String, modified: Option<i128>) -> (post:
    BlogContent)
    ensures
        post.blog_file_name == blog_name,
        post.date_last_edit@ == (match shown_date(modified) {
            Some(d) => d,
            None => Seq::<char>::empty(),
        }),
        post.blog_title == parts.title,
        post.tags == parts.tags,
        post.html_blog_content == html,
{
    let date = match date_shown(modified) {
        Some(d) => d,
        None => String::new(),
    };
    BlogContent {
        blog_file_name: blog_name,
        date_last_edit: date,
        blog_title: parts.title,
        tags: parts.tags,
        html_blog_content: html,
    }
}

/// Why a post's preview cannot be made.
pub enum PreviewError {
    /// The date of the file's last change is unknown.
    MissingDate,
    /// The file's name does not end in `".md"`.
    NotMarkdown,
}

/// The preview of the post in the file `file_name`: the name without `".md"`, the
/// date of the last change, the title and tags, and the fifth line followed by
/// `"..."` rendered to HTML with comrak's default options. Fails where the date is
/// unknown, and otherwise where the name does not end in `".md"`.
pub fn blog_preview(file_name: &str, text: &str, modified: Option<i128>) -> (res: Result<
    BlogContent,
    PreviewError,
>)
    ensures
        shown_date(modified) is None ==> res matches Err(PreviewError::MissingDate),
        shown_date(modified) is Some && file_stem(file_name@) is None ==> res matches Err(
            PreviewError::NotMarkdown,
        ),
        res matches Ok(post) ==> {
            &&& shown_date(modified) == Some(post.date_last_edit@)
            &&& file_stem(file_name@) == Some(post.blog_file_name@)
            &&& post.blog_title@ == blog_title(text@)
            &&& string_views(post.tags@) == blog_tags(text@)
            &&& post.html_blog_content@ == comrak_default_html(preview_source(text@))
        },
        shown_date(modified) is Some && file_stem(file_name@) is Some ==> res is Ok,
{
    let date = match date_shown(modified) {
        Some(d) => d,
        None => {
            return Err(PreviewError::MissingDate);
        },
    };
    let parts = parse_blog_preview(text);
    let html = render_markdown_default(parts.markdown.as_str());
    let stem = match blog_file_stem(file_name) {
        Some(s) => s,
        None => {
            return Err(PreviewError::NotMarkdown);
        },
    };
    Ok(
        BlogContent {
            blog_file_name: stem,
            date_last_edit: date,
            blog_title: parts.title,
            tags: parts.tags,
            html_blog_content: html,
        },
    )
}

/// What the site serves in place of a post that cannot be found or read.
pub fn blog_not_found() -> (post: BlogContent)
    ensures
        post.blog_file_name@ == Seq::<char>::empty(),
        post.date_last_edit@ == seq!['9', '9', '9', '9', '-', '1', '2', '-', '0', '1'],
        post.blog_title@ == seq!['N', 'o', 't', ' ', 'F', 'o', 'u', 'n', 'd'],
        string_views(post.tags@) == seq![seq!['#', 'e', 'r', 'r', 'o', 'r']],
        post.html_blog_content@ == "<p>Blog not found</p>"@,
{
    let date = String::from_str("9999-12-01");
    let title = String::from_str("Not Found");
    let tag = String::from_str("#error");
    let html = String::from_str("<p>Blog not found</p>");
    proof {
        reveal_strlit("9999-12-01");
        reveal_strlit("Not Found");
        reveal_strlit("#error");
        assert(tag@ =~= seq!['#', 'e', 'r', 'r', 'o', 'r']);
        assert(date@ =~= seq!['9', '9', '9', '9', '-', '1', '2', '-', '0', '1']);
        assert(title@ =~= seq!['N', 'o', 't', ' ', 'F', 'o', 'u', 'n', 'd']);
    }
    let mut tags: Vec<String> = Vec::new();
    tags.push(tag);
    assert(string_views(tags@) =~= seq![seq!['#', 'e', 'r', 'r', 'o', 'r']]);
    BlogContent {
        blog_file_name: String::new(),
        date_last_edit: date,
        blog_title: title,
        tags,
        html_blog_content: html,
    }
}

proof fn lemma_tags_are_words_of_line(text: Seq<char>, tags: Seq<String>)
    requires
        string_views(tags) == blog_tags(text),
    ensures
        concat(string_views(tags)) == strip_ws(nth_or_empty(lines(text), 2)),
        forall|i: int|
            #![trigger tags[i]]
            0 <= i < tags.len() ==> tags[i]@.len() > 0 && forall|j: int|
                0 <= j < tags[i]@.len() ==> !is_ws(#[trigger] tags[i]@[j]),
{
    let line = nth_or_empty(lines(text), 2);
    law_words_cover(line);
    law_words_are_words(line);
    assert forall|i: int| #![trigger tags[i]] 0 <= i < tags.len() implies tags[i]@.len() > 0
        && forall|j: int| 0 <= j < tags[i]@.len() ==> !is_ws(#[trigger] tags[i]@[j]) by {
        assert(string_views(tags)[i] == tags[i]@);
        assert(words(line)[i] == tags[i]@);
    }
}

/// No tag is dropped, cut or invented: the tags laid end to end are exactly the
/// non-whitespace characters of the third line, in order, and each tag is a
/// non-empty run without whitespace.
pub proof fn law_tags_cover_third_line(text: Seq<char>)
    ensures
        concat(blog_tags(text)) == strip_ws(nth_or_empty(lines(text), 2)),
        forall|i: int|
            #![trigger blog_tags(text)[i]]
            0 <= i < blog_tags(text).len() ==> blog_tags(text)[i].len() > 0 && forall|j: int|
                0 <= j < blog_tags(text)[i].len() ==> !is_ws(#[trigger] blog_tags(text)[i][j]),
{
    law_words_cover(nth_or_empty(lines(text), 2));
    law_words_are_words(nth_or_empty(lines(text), 2));
}

/// A preview's Markdown is a single line of the source and `"..."`: the fifth line
/// where there is one (nothing otherwise), so it holds no line feed and does not grow
/// with the lines after the fifth.
pub proof fn law_preview_is_one_line(text: Seq<char>)
    ensures
        preview_source(text).len() >= 3,
        preview_source(text).take(preview_source(text).len() - 3) == (if lines(text).len() > 4 {
            lines(text)[4]
        } else {
            Seq::<char>::empty()
        }),
        preview_source(text).skip(preview_source(text).len() - 3) == seq!['.', '.', '.'],
        !preview_source(text).contains('\n'),
{
    let p = preview_source(text);
    let line = nth_or_empty(lines(text), 4);
    law_lines_have_no_newline(text);
    assert(p.take(p.len() - 3) =~= line);
    assert(p.skip(p.len() - 3) =~= seq!['.', '.', '.']);
    if p.contains('\n') {
        let j = choose|j: int| 0 <= j < p.len() && p[j] == '\n';
        if j < line.len() {
            assert(line[j] == '\n');
            assert(line.contains('\n'));
            assert(lines(text)[4] == line);
        }
    }
}

/// The date shown for a post is the date part of the UTC formatting of its
/// modification time itself, and nothing where that time is unknown or cannot be
/// formatted.
pub proof fn law_shown_date(t: i128)
    ensures
        shown_date(None) is None,
        match iso8601_utc(t) {
            Some(iso) => shown_date(Some(t)) == Some(date_part(iso)),
            None => shown_date(Some(t)) is None,
        },
{
}

/// A post's source is its first three lines and its body, each two parted by
/// `'\n'`, up to a final `'\n'`, where it has more than three lines and no
/// carriage return.
pub proof fn law_source_is_head_and_body(text: Seq<char>)
    requires
        !text.contains('\r'),
        lines(text).len() > 3,
    ensures
        join(lines(text).take(3), seq!['\n']) + seq!['\n'] + blog_body(text) == if text.last()
            == '\n' {
            text.drop_last()
        } else {
            text
        },
{
    let ls = lines(text);
    law_join_lines(text);
    assert(ls.take(3) + ls.skip(3) =~= ls);
    lemma_join_append(ls.take(3), ls.skip(3), seq!['\n']);
}

/// Every tag is non-empty and holds no whitespace.
pub proof fn law_tags_are_words(text: Seq<char>)
    ensures
        forall|i: int|
            #![trigger blog_tags(text)[i]]
            0 <= i < blog_tags(text).len() ==> blog_tags(text)[i].len() > 0 && forall|j: int|
                0 <= j < blog_tags(text)[i].len() ==> !is_ws(#[trigger] blog_tags(text)[i][j]),
{
    law_words_are_words(nth_or_empty(lines(text), 2));
}

/// A first line of `"# "` and a title that neither starts nor ends with whitespace
/// and holds no line feed gives that title.
pub proof fn law_title_of_heading(title: Seq<char>, rest: Seq<char>)
    requires
        title.len() > 0,
        !is_ws(title[0]),
        !is_ws(title.last()),
        !title.contains('\n'),
    ensures
        blog_title(heading_mark() + title + seq!['\n'] + rest) == title,
{
    let s = heading_mark() + title + seq!['\n'] + rest;
    let line = heading_mark() + title;
    let k = line.len() as int;
    assert forall|j: int| 0 <= j < k implies in_class(CharClass::Except('\n'), #[trigger] s[j]) by {
        assert(s[j] == line[j]);
        if j >= 2 {
            assert(line[j] == title[j - 2]);
            assert(title.contains(title[j - 2]));
        }
    }
    assert(s[k] == '\n');
    lemma_lead_len_is(s, CharClass::Except('\n'), k);
    assert(s.take(k) =~= line);
    assert(line.last() == title.last());
    assert(title.last() != '\r') by {
        assert(is_ws('\r'));
    }
    assert(strip_cr(line) == line);
    assert(lines(s)[0] == line);
    assert(!is_ws(line[0]));
    lemma_lead_len_is(line, CharClass::Whitespace, 0);
    assert(trim_start(line) =~= line);
    lemma_trail_len_is(line, CharClass::Whitespace, 0);
    assert(trim_end(line) =~= line);
    assert(line.take(2) =~= heading_mark());
    assert(line.skip(2) =~= title);
}

/// Stripping `".md"` undoes appending it, and a stem with `".md"` appended gives the
/// file name back.
pub proof fn law_file_stem(name: Seq<char>)
    ensures
        file_stem(name + md_suffix()) == Some(name),
        file_stem(name) matches Some(stem) ==> stem + md_suffix() == name,
{
    let f = name + md_suffix();
    assert(f.skip(f.len() - 3) =~= md_suffix());
    assert(f.take(f.len() - 3) =~= name);
    if ends_with(name, md_suffix()) {
        assert(name.take(name.len() - 3) + md_suffix() =~= name);
    }
}

} // verus!
