use vstd::prelude::*;
use crate::link::{Link, LinkModel, links_view};
use crate::markdown::strings_view;

verus! {

#[verifier::external_type_specification]
#[verifier::external_body]
pub struct ExJsonError(serde_json::Error);

/// Why the raw log could not be written.
#[derive(Debug, PartialEq, Eq)]
pub enum RawLogError {
    /// A string could not be encoded as JSON.
    Encoding,
}

/// A hexadecimal digit, in lower case.
pub open spec fn hex_digit(n: int) -> char {
    seq!['0', '1', '2', '3', '4', '5', '6', '7', '8', '9', 'a', 'b', 'c', 'd', 'e', 'f'][n]
}

/// How one character stands in a JSON string: a quote and a backslash are
/// escaped, the control characters below U+0020 are written as `\b`, `\t`,
/// `\n`, `\f`, `\r` or `\u00` and two hexadecimal digits, and every other
/// character stands for itself.
pub open spec fn json_escape(c: char) -> Seq<char> {
    if c == '"' {
        seq!['\\', '"']
    } else if c == '\\' {
        seq!['\\', '\\']
    } else if c == '\u{8}' {
        seq!['\\', 'b']
    } else if c == '\t' {
        seq!['\\', 't']
    } else if c == '\n' {
        seq!['\\', 'n']
    } else if c == '\u{c}' {
        seq!['\\', 'f']
    } else if c == '\r' {
        seq!['\\', 'r']
    } else if (c as u32) < 0x20 {
        seq!['\\', 'u', '0', '0', hex_digit((c as u32) as int / 16), hex_digit((c as u32) as int % 16)]
    } else {
        seq![c]
    }
}

/// The characters of a string, each escaped for JSON.
pub open spec fn json_escaped(s: Seq<char>) -> Seq<char>
    decreases s.len(),
{
    if s.len() == 0 {
        Seq::empty()
    } else {
        json_escaped(s.drop_last()) + json_escape(s.last())
    }
}

/// The JSON string literal that `serde_json` writes for a string.
pub open spec fn json_string_of(s: Seq<char>) -> Seq<char> {
    seq!['"'] + json_escaped(s) + seq!['"']
}

/// Relies on `serde_json::to_string` on a string slice: the string between
/// double quotes, escaped by serde_json's table of escapes; written into a
/// `Vec`, it does not fail.
#[verifier::external_body]
fn json_string(s: &str) -> (r: Result<String, serde_json::Error>)
    ensures
        r is Ok,
        r matches Ok(t) ==> t@ == json_string_of(s@),
{
    serde_json::to_string(s)
}

/// The JSON object of one link, from the encoded URL and the encoded
/// category; a link without a category has no `category` member.
pub open spec fn link_object(url_json: Seq<char>, category_json: Option<Seq<char>>) -> Seq<char> {
    seq!['{', '"', 'u', 'r', 'l', '"', ':'] + url_json + match category_json {
        Some(c) => seq![',', '"', 'c', 'a', 't', 'e', 'g', 'o', 'r', 'y', '"', ':'] + c,
        None => Seq::empty(),
    } + seq!['}']
}

/// The JSON object that stands for a link in the raw log.
pub open spec fn json_link(link: LinkModel) -> Seq<char> {
    link_object(
        json_string_of(link.url),
        match link.category {
            Some(c) => Some(json_string_of(c)),
            None => None,
        },
    )
}

/// The items, separated by commas.
pub open spec fn comma_joined(items: Seq<Seq<char>>) -> Seq<char>
    decreases items.len(),
{
    if items.len() == 0 {
        Seq::empty()
    } else if items.len() == 1 {
        items[0]
    } else {
        comma_joined(items.drop_last()) + seq![','] + items.last()
    }
}

/// A JSON array of the given values, in order.
pub open spec fn json_array(items: Seq<Seq<char>>) -> Seq<char> {
    seq!['['] + comma_joined(items) + seq![']']
}

/// The objects of the links, in order.
pub open spec fn link_objects(links: Seq<LinkModel>) -> Seq<Seq<char>> {
    links.map_values(|l: LinkModel| json_link(l))
}

/// The raw log that holds the links: a JSON array of one object per link.
pub open spec fn raw_log_of(links: Seq<LinkModel>) -> Seq<char> {
    json_array(link_objects(links))
}

/// The JSON object of one link, from its URL and its category already
/// encoded as JSON strings.
pub fn link_object_text(url_json: &str, category_json: Option<&str>) -> (r: String)
    ensures
        r@ == link_object(url_json@, match category_json {
            Some(c) => Some(c@),
            None => None,
        }),
{
    let mut out = String::new();
    out.append("{\"url\":");
    out.append(url_json);
    proof {
        reveal_strlit("{\"url\":");
        reveal_strlit(",\"category\":");
        reveal_strlit("}");
    }
    match category_json {
        Some(c) => {
            out.append(",\"category\":");
            out.append(c);
        },
        None => {},
    }
    out.append("}");
    let ghost cv: Option<Seq<char>> = match category_json {
        Some(c) => Some(c@),
        None => None,
    };
    assert(out@ =~= link_object(url_json@, cv));
    out
}

/// A JSON array of the given encoded values, in order.
pub fn json_array_text(items: &Vec<String>) -> (r: String)
    ensures
        r@ == json_array(strings_view(items@)),
{
    let ghost iv = strings_view(items@);
    let mut out = String::new();
    out.append("[");
    proof {
        reveal_strlit("[");
        reveal_strlit("]");
    }
    assert(out@ =~= seq!['['] + comma_joined(iv.take(0)));
    let mut i: usize = 0;
    while i < items.len()
        invariant
            i <= items.len(),
            iv == strings_view(items@),
            out@ == seq!['['] + comma_joined(iv.take(i as int)),
        decreases items.len() - i,
    {
        assert(iv.take(i + 1).drop_last() =~= iv.take(i as int));
        if i > 0 {
            out.append(",");
            proof {
                reveal_strlit(",");
            }
            assert(out@ =~= seq!['['] + comma_joined(iv.take(i as int)) + seq![',']);
        } else {
            assert(iv.take(0) =~= Seq::<Seq<char>>::empty());
            assert(out@ =~= seq!['[']);
        }
        out.append(items[i].as_str());
        assert(iv.take(i + 1).last() == items@[i as int]@);
        proof {
            if i == 0 {
                assert(iv.take(1).len() == 1);
                assert(comma_joined(iv.take(1)) == iv.take(1)[0]);
            } else {
                assert(iv.take(i + 1).len() == i + 1);
                assert(comma_joined(iv.take(i + 1)) == comma_joined(iv.take(i as int)) + seq![',']
                    + iv.take(i + 1).last());
            }
        }
        assert(out@ =~= seq!['['] + comma_joined(iv.take(i + 1)));
        i += 1;
    }
    out.append("]");
    assert(iv.take(items.len() as int) =~= iv);
    assert(out@ =~= json_array(iv));
    out
}

/// The JSON object of one link.
fn json_link_text(link: &Link) -> (r: Result<String, RawLogError>)
    ensures
        r is Ok,
        r matches Ok(t) ==> t@ == json_link(link@),
{
    let url_json = match json_string(link.url.as_str()) {
        Ok(t) => t,
        Err(_) => return Err(RawLogError::Encoding),
    };
    match &link.category {
        Some(c) => {
            let category_json = match json_string(c.as_str()) {
                Ok(t) => t,
                Err(_) => return Err(RawLogError::Encoding),
            };
            Ok(link_object_text(url_json.as_str(), Some(category_json.as_str())))
        },
        None => Ok(link_object_text(url_json.as_str(), None)),
    }
}

/// The raw log text of the links: a JSON array with one object per link, in
/// order.
pub fn format_log(links: &Vec<Link>) -> (r: Result<String, RawLogError>)
    ensures
        r is Ok,
        r matches Ok(t) ==> t@ == raw_log_of(links_view(links@)),
{
    let ghost lv = links_view(links@);
    let mut objects: Vec<String> = Vec::new();
    let mut i: usize = 0;
    while i < links.len()
        invariant
            i <= links.len(),
            lv == links_view(links@),
            strings_view(objects@) == link_objects(lv.take(i as int)),
        decreases links.len() - i,
    {
        let object = json_link_text(&links[i])?;
        let ghost prev = objects@;
        let ghost ov = object@;
        objects.push(object);
        assert(strings_view(objects@) =~= strings_view(prev).push(ov));
        assert(strings_view(objects@) =~= link_objects(lv.take(i + 1)));
        i += 1;
    }
    assert(lv.take(links.len() as int) =~= lv);
    Ok(json_array_text(&objects))
}

/// The new text of the raw log that held `old_links`, once `new_link` is
/// appended to it.
pub fn add_to_raw(old_links: &Vec<Link>, new_link: &Link) -> (r: Result<String, RawLogError>)
    ensures
        r is Ok,
        r matches Ok(t) ==> t@ == raw_log_of(links_view(old_links@).push(new_link@)),
{
    let mut links: Vec<Link> = Vec::new();
    let mut i: usize = 0;
    while i < old_links.len()
        invariant
            i <= old_links.len(),
            links_view(links@) == links_view(old_links@).take(i as int),
        decreases old_links.len() - i,
    {
        let ghost prev = links@;
        let link = old_links[i].duplicate();
        let ghost lm = link@;
        links.push(link);
        assert(links_view(links@) =~= links_view(prev).push(lm));
        assert(links_view(links@) =~= links_view(old_links@).take(i + 1));
        i += 1;
    }
    let ghost prev = links@;
    let last = new_link.duplicate();
    let ghost lm = last@;
    links.push(last);
    assert(links_view(links@) =~= links_view(prev).push(lm));
    assert(links_view(prev) =~= links_view(old_links@));
    assert(links_view(links@) =~= links_view(old_links@).push(new_link@));
    format_log(&links)
}

/// The raw log of a sequence of links is a JSON array of exactly one object
/// per link, the i-th object that of the i-th link.
pub proof fn lemma_raw_log_objects(links: Seq<LinkModel>)
    ensures
        raw_log_of(links) == json_array(link_objects(links)),
        link_objects(links).len() == links.len(),
        forall|i: int| 0 <= i < links.len() ==> #[trigger] link_objects(links)[i] == json_link(links[i]),
{
}

/// Appending a link to a log keeps the objects of the earlier links, in their
/// order, and puts the object of the new link last.
pub proof fn lemma_append_keeps_entries(old: Seq<LinkModel>, new: LinkModel)
    ensures
        link_objects(old.push(new)) == link_objects(old).push(json_link(new)),
        raw_log_of(old.push(new)) == json_array(link_objects(old).push(json_link(new))),
{
    assert(link_objects(old.push(new)) =~= link_objects(old).push(json_link(new)));
}

} // verus!
