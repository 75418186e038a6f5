use vstd::prelude::*;

verus! {

/// What a link is, as a mathematical value.
pub struct LinkModel {
    pub url: Seq<char>,
    pub category: Option<Seq<char>>,
}

impl LinkModel {
    /// The category, where there is one, is not empty.
    pub open spec fn wf(self) -> bool {
        match self.category {
            Some(c) => c.len() > 0,
            None => true,
        }
    }
}

/// The view of an optional string.
pub open spec fn opt_view(s: Option<String>) -> Option<Seq<char>> {
    match s {
        Some(t) => Some(t@),
        None => None,
    }
}

/// A link to keep: a URL, optionally filed under a category.
#[derive(Debug, Clone)]
pub struct Link {
    pub url: String,
    pub category: Option<String>,
}

impl View for Link {
    type V = LinkModel;

    open spec fn view(&self) -> LinkModel {
        LinkModel { url: self.url@, category: opt_view(self.category) }
    }
}

/// The models of a sequence of links.
pub open spec fn links_view(links: Seq<Link>) -> Seq<LinkModel> {
    links.map_values(|l: Link| l@)
}

/// Copies an optional string.
pub(crate) fn clone_opt(s: &Option<String>) -> (r: Option<String>)
    ensures
        opt_view(r) == opt_view(*s),
{
    match s {
        Some(t) => Some(t.clone()),
        None => None,
    }
}

impl Link {
    pub fn new(url: String, category: Option<String>) -> (r: Link)
        ensures
            r@ == (LinkModel { url: url@, category: opt_view(category) }),
    {
        Link { url, category }
    }

    pub fn get_url(&self) -> (r: String)
        ensures
            r@ == self@.url,
    {
        self.url.clone()
    }

    pub fn get_category(&self) -> (r: Option<String>)
        ensures
            opt_view(r) == self@.category,
    {
        clone_opt(&self.category)
    }

    /// A copy of the link with the same URL and category.
    pub fn duplicate(&self) -> (r: Link)
        ensures
            r@ == self@,
    {
        Link { url: self.url.clone(), category: clone_opt(&self.category) }
    }
}

impl PartialEq for Link {
    /// Links are equal when their URLs and their categories are.
    fn eq(&self, other: &Link) -> (r: bool) {
        let same_url = self.url == other.url;
        let same_category = match (&self.category, &other.category) {
            (Some(a), Some(b)) => *a == *b,
            (None, None) => true,
            _ => false,
        };
        same_url && same_category
    }
}

impl vstd::std_specs::cmp::PartialEqSpecImpl for Link {
    open spec fn obeys_eq_spec() -> bool {
        true
    }

    open spec fn eq_spec(&self, other: &Link) -> bool {
        self@ == other@
    }
}

} // verus!
