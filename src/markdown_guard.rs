use vstd::prelude::*;
use crate::keeper::chars_of;

verus! {

/// The lines of a text: the runs of characters between line feeds.
pub open spec fn lines_of(text: Seq<char>) -> Seq<Seq<char>>
    decreases text.len(),
{
    if text.len() == 0 {
        seq![Seq::empty()]
    } else {
        let lines = lines_of(text.drop_last());
        if text.last() == '\n' {
            lines.push(Seq::empty())
        } else {
            lines.update(lines.len() - 1, lines.last().push(text.last()))
        }
    }
}

/// A text has at least one line.
pub proof fn lemma_lines_of_len(text: Seq<char>)
    ensures
        lines_of(text).len() >= 1,
    decreases text.len(),
{
    if text.len() > 0 {
        lemma_lines_of_len(text.drop_last());
    }
}

/// The number of bytes of a character in UTF-8.
pub open spec fn utf8_len(c: char) -> int {
    if (c as u32) < 0x80 {
        1
    } else if (c as u32) < 0x800 {
        2
    } else if (c as u32) < 0x10000 {
        3
    } else {
        4
    }
}

/// The line holds three backticks in a row.
pub open spec fn has_fence(line: Seq<char>) -> bool {
    exists|i: int|
        0 <= i && i + 3 <= line.len() && #[trigger] line.subrange(i, i + 3) == seq!['`', '`', '`']
}

/// The first characters of the line take up exactly three bytes in UTF-8.
pub open spec fn boundary_at_three(line: Seq<char>) -> bool {
    (line.len() >= 1 && utf8_len(line[0]) == 3)
    || (line.len() >= 2 && utf8_len(line[0]) + utf8_len(line[1]) == 3)
    || (line.len() >= 3 && utf8_len(line[0]) == 1 && utf8_len(line[1]) == 1 && utf8_len(line[2]) == 1)
}

pub open spec fn is_bullet(c: char) -> bool {
    c == '-' || c == '+' || c == '*'
}

pub open spec fn is_number_char(c: char) -> bool {
    ('0' <= c && c <= '9') || c == '.'
}

pub open spec fn is_letter_mark(c: char) -> bool {
    c == 'a' || c == 'A' || c == 'i' || c == 'I'
}

/// A run of digits and dots from `s`, then a space: an ordered list item.
pub open spec fn numbered_at(line: Seq<char>, s: int) -> bool {
    exists|k: int|
        s < k < line.len() && #[trigger] line[k] == ' ' && forall|j: int| s <= j < k ==> #[trigger] is_number_char(line[j])
}

/// A run of `a`, `A`, `i`, `I` from `s`, then a dot and a space: an ordered
/// list item.
pub open spec fn lettered_at(line: Seq<char>, s: int) -> bool {
    exists|k: int|
        s < k && k + 1 < line.len() && #[trigger] line[k] == '.' && line[k + 1] == ' '
            && forall|j: int| s <= j < k ==> #[trigger] is_letter_mark(line[j])
}

/// A list item begins at position `s`: a bullet and a space, or an ordered
/// item.
pub open spec fn item_at(line: Seq<char>, s: int) -> bool {
    (s + 1 < line.len() && is_bullet(line[s]) && line[s + 1] == ' ')
    || numbered_at(line, s)
    || lettered_at(line, s)
}

/// After some leading spaces, the line begins a list item.
pub open spec fn opens_list(line: Seq<char>) -> bool {
    exists|s: int| 0 <= s <= line.len() && (forall|j: int| 0 <= j < s ==> line[j] == ' ') && #[trigger] item_at(line, s)
}

/// A line that the Markdown tokenizer reads without nesting and without
/// slicing inside a character: it opens no block quote and no list, and if it
/// holds a code fence its first bytes end on a character boundary at three.
pub open spec fn plain_line(line: Seq<char>) -> bool {
    &&& !(line.len() > 0 && line[0] == '>')
    &&& !opens_list(line)
    &&& has_fence(line) ==> boundary_at_three(line)
}

/// Every line of the text is plain.
pub open spec fn plain_markdown(text: Seq<char>) -> bool {
    forall|i: int| 0 <= i < lines_of(text).len() ==> plain_line(#[trigger] lines_of(text)[i])
}

fn char_utf8_len(c: char) -> (r: u32)
    ensures
        r == utf8_len(c),
{
    if (c as u32) < 0x80 {
        1
    } else if (c as u32) < 0x800 {
        2
    } else if (c as u32) < 0x10000 {
        3
    } else {
        4
    }
}

fn line_has_fence(line: &Vec<char>) -> (r: bool)
    ensures
        r == has_fence(line@),
{
    if line.len() < 3 {
        return false;
    }
    let mut i: usize = 0;
    while i < line.len() - 2
        invariant
            line.len() >= 3,
            i <= line.len() - 2,
            forall|k: int| 0 <= k < i ==> #[trigger] line@.subrange(k, k + 3) != seq!['`', '`', '`'],
        decreases line.len() - i,
    {
        if line[i] == '`' && line[i + 1] == '`' && line[i + 2] == '`' {
            assert(line@.subrange(i as int, i + 3) =~= seq!['`', '`', '`']);
            return true;
        }
        assert(line@.subrange(i as int, i + 3)[0] == line@[i as int]);
        assert(line@.subrange(i as int, i + 3)[1] == line@[i + 1]);
        assert(line@.subrange(i as int, i + 3)[2] == line@[i + 2]);
        i += 1;
    }
    false
}

fn line_boundary_at_three(line: &Vec<char>) -> (r: bool)
    ensures
        r == boundary_at_three(line@),
{
    let n = line.len();
    (n >= 1 && char_utf8_len(line[0]) == 3)
    || (n >= 2 && char_utf8_len(line[0]) + char_utf8_len(line[1]) == 3)
    || (n >= 3 && char_utf8_len(line[0]) == 1 && char_utf8_len(line[1]) == 1 && char_utf8_len(line[2]) == 1)
}

/// Whether a list item begins at `s`, the first character after the leading
/// spaces.
fn line_item_at(line: &Vec<char>, s: usize) -> (r: bool)
    requires
        s <= line.len(),
    ensures
        r == item_at(line@, s as int),
{
    let n = line.len();
    if s < n && n - s >= 2 && (line[s] == '-' || line[s] == '+' || line[s] == '*') && line[s + 1] == ' ' {
        return true;
    }
    let mut k: usize = s;
    while k < n && (('0' <= line[k] && line[k] <= '9') || line[k] == '.')
        invariant
            s <= k <= n,
            n == line.len(),
            forall|j: int| s <= j < k ==> #[trigger] is_number_char(line@[j]),
        decreases n - k,
    {
        k += 1;
    }
    let numbered = k > s && k < n && line[k] == ' ';
    assert(numbered == numbered_at(line@, s as int)) by {
        if !numbered {
            assert forall|m: int| s < m < line.len() && #[trigger] line@[m] == ' '
                implies !(forall|j: int| s <= j < m ==> #[trigger] is_number_char(line@[j])) by {
                if m < k {
                    assert(is_number_char(line@[m]));
                } else if m > k {
                    if k < n {
                        assert(!is_number_char(line@[k as int]));
                    }
                } else {
                    assert(k > s);
                }
            }
        }
    }
    let mut k2: usize = s;
    while k2 < n && (line[k2] == 'a' || line[k2] == 'A' || line[k2] == 'i' || line[k2] == 'I')
        invariant
            s <= k2 <= n,
            n == line.len(),
            forall|j: int| s <= j < k2 ==> #[trigger] is_letter_mark(line@[j]),
        decreases n - k2,
    {
        k2 += 1;
    }
    let lettered = k2 > s && k2 < n && n - k2 >= 2 && line[k2] == '.' && line[k2 + 1] == ' ';
    assert(lettered == lettered_at(line@, s as int)) by {
        if !lettered {
            assert forall|m: int| s < m && m + 1 < line.len() && #[trigger] line@[m] == '.' && line@[m + 1] == ' '
                implies !(forall|j: int| s <= j < m ==> #[trigger] is_letter_mark(line@[j])) by {
                if m < k2 {
                    assert(is_letter_mark(line@[m]));
                } else if m > k2 {
                    if k2 < n {
                        assert(!is_letter_mark(line@[k2 as int]));
                    }
                } else {
                    assert(k2 > s);
                }
            }
        }
    }
    numbered || lettered
}

fn line_is_plain(line: &Vec<char>) -> (r: bool)
    ensures
        r == plain_line(line@),
{
    if line.len() > 0 && line[0] == '>' {
        return false;
    }
    let mut s: usize = 0;
    while s < line.len() && line[s] == ' '
        invariant
            s <= line.len(),
            forall|j: int| 0 <= j < s ==> line@[j] == ' ',
        decreases line.len() - s,
    {
        s += 1;
    }
    let opens = line_item_at(line, s);
    assert(opens == opens_list(line@)) by {
        if !opens {
            assert forall|t: int| 0 <= t <= line@.len() && (forall|j: int| 0 <= j < t ==> line@[j] == ' ')
                implies !#[trigger] item_at(line@, t) by {
                if t < s {
                    assert(line@[t] == ' ');
                    assert(!is_number_char(line@[t]));
                    assert(!is_letter_mark(line@[t]));
                } else if t > s {
                    assert(line@[s as int] == ' ');
                }
            }
        }
    }
    if opens {
        return false;
    }
    if line_has_fence(line) {
        line_boundary_at_three(line)
    } else {
        true
    }
}

/// Whether the tokenizer may be handed `text`: every line is plain.
pub fn is_plain_markdown(text: &str) -> (r: bool)
    ensures
        r == plain_markdown(text@),
{
    let chars = chars_of(text);
    let mut line: Vec<char> = Vec::new();
    let mut ok = true;
    let mut n: usize = 0;
    while n < chars.len()
        invariant
            n <= chars.len(),
            chars@ == text@,
            line@ == lines_of(chars@.take(n as int)).last(),
            ok == forall|i: int| 0 <= i < lines_of(chars@.take(n as int)).len() - 1
                ==> plain_line(#[trigger] lines_of(chars@.take(n as int))[i]),
        decreases chars.len() - n,
    {
        let ghost before = chars@.take(n as int);
        assert(chars@.take(n + 1).drop_last() =~= before);
        proof {
            lemma_lines_of_len(before);
        }
        let c = chars[n];
        let ghost old_ok = ok;
        let mut here = true;
        if c == '\n' {
            here = line_is_plain(&line);
            ok = ok && here;
            line = Vec::new();
        } else {
            line.push(c);
        }
        n += 1;
        proof {
            let read = chars@.take(n as int);
            let lb = lines_of(before);
            assert(read.drop_last() =~= before);
            assert(read.last() == c);
            lemma_lines_of_len(read);
            if c == '\n' {
                assert(lines_of(read) == lb.push(Seq::empty()));
                assert forall|i: int| 0 <= i < lb.len() implies #[trigger] lines_of(read)[i] == lb[i] by {}
                if ok {
                    assert(old_ok && here);
                    assert forall|i: int| 0 <= i < lines_of(read).len() - 1 implies
                        plain_line(#[trigger] lines_of(read)[i]) by {
                        assert(lines_of(read)[i] == lb[i]);
                    }
                } else if !here {
                    assert(lines_of(read)[lb.len() - 1] == lb.last());
                    assert(!plain_line(lines_of(read)[lb.len() - 1]));
                } else {
                    assert(!old_ok);
                    let j = choose|j: int| 0 <= j < lb.len() - 1 && !plain_line(#[trigger] lb[j]);
                    assert(lines_of(read)[j] == lb[j]);
                }
            } else {
                assert(lines_of(read) == lb.update(lb.len() - 1, lb.last().push(c)));
                assert forall|i: int| 0 <= i < lines_of(read).len() - 1 implies
                    #[trigger] lines_of(read)[i] == lb[i] by {}
                if !ok {
                    let j = choose|j: int| 0 <= j < lb.len() - 1 && !plain_line(#[trigger] lb[j]);
                    assert(lines_of(read)[j] == lb[j]);
                }
            }
        }
    }
    let last = line_is_plain(&line);
    proof {
        assert(chars@.take(chars.len() as int) =~= text@);
        lemma_lines_of_len(text@);
        let ls = lines_of(text@);
        if ok && last {
            assert forall|i: int| 0 <= i < ls.len() implies plain_line(#[trigger] ls[i]) by {
                if i == ls.len() - 1 {
                    assert(ls[i] == ls.last());
                }
            }
        }
        if !last {
            assert(!plain_line(ls[ls.len() - 1]));
        }
    }
    ok && last
}

} // verus!
