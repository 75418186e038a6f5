use vstd::prelude::*;
use crate::backend::{AvailableBackend, Backend, key_of};
use crate::file_handling::{join_path, joined_path};
use crate::link::{Link, LinkModel};

verus! {

broadcast use vstd::string::group_string_axioms;

/// `needle` occurs in `hay` as a run of consecutive characters.
pub open spec fn is_substring(needle: Seq<char>, hay: Seq<char>) -> bool {
    exists|i: int|
        0 <= i && i + needle.len() <= hay.len() && #[trigger] hay.subrange(i, i + needle.len())
            == needle
}

/// The characters of a string, in order.
pub(crate) fn chars_of(s: &str) -> (r: Vec<char>)
    ensures
        r@ == s@,
{
    let mut v: Vec<char> = Vec::new();
    for c in it: s.chars()
        invariant
            v@ == it.seq().take(it.index() as int),
    {
        v.push(c);
    }
    v
}

fn occurs_at(needle: &Vec<char>, hay: &Vec<char>, at: usize) -> (r: bool)
    requires
        at + needle.len() <= hay.len(),
    ensures
        r == (hay@.subrange(at as int, at + needle.len()) == needle@),
{
    let mut j: usize = 0;
    while j < needle.len()
        invariant
            j <= needle.len(),
            at + needle.len() <= hay.len(),
            forall|k: int| 0 <= k < j ==> hay@[at + k] == needle@[k],
        decreases needle.len() - j,
    {
        if hay[at + j] != needle[j] {
            assert(hay@.subrange(at as int, at + needle.len())[j as int] != needle@[j as int]);
            return false;
        }
        j += 1;
    }
    assert(hay@.subrange(at as int, at + needle.len()) =~= needle@);
    true
}

/// Whether `new_link` occurs, character for character, in `old_contents`.
pub fn contains_link(new_link: &str, old_contents: &str) -> (r: bool)
    ensures
        r == is_substring(new_link@, old_contents@),
{
    let needle = chars_of(new_link);
    let hay = chars_of(old_contents);
    if needle.len() == 0 {
        assert(old_contents@.subrange(0, 0 + new_link@.len() as int) =~= new_link@);
        return true;
    }
    if needle.len() > hay.len() {
        return false;
    }
    let last = hay.len() - needle.len();
    let mut i: usize = 0;
    while i <= last
        invariant
            needle@ == new_link@,
            hay@ == old_contents@,
            needle.len() >= 1,
            last == hay.len() - needle.len(),
            i <= last + 1,
            forall|k: int| 0 <= k < i ==> #[trigger] hay@.subrange(k, k + needle.len()) != needle@,
        decreases last + 1 - i,
    {
        if occurs_at(&needle, &hay, i) {
            return true;
        }
        i += 1;
    }
    false
}

/// Where the settings file and the raw log are kept.
#[derive(Debug)]
pub struct Settings {
    /// The directory of the settings file.
    pub config_path: String,
    /// The name of the settings file.
    pub config_file_name: String,
    /// The name of the raw log, in each Git repository.
    pub raw_file_name: String,
}

impl Settings {
    /// The settings kept in the directory `link-keeper` of the user's
    /// configuration directory `config_dir`.
    pub fn in_config_dir(config_dir: &str) -> (r: Settings)
        ensures
            r.config_path@ == joined_path(config_dir@, "link-keeper"@),
            r.config_file_name@ == "link-keeper.toml"@,
            r.raw_file_name@ == "link_keeper.json"@,
    {
        Settings {
            config_path: join_path(config_dir, "link-keeper"),
            config_file_name: String::from_str("link-keeper.toml"),
            raw_file_name: String::from_str("link_keeper.json"),
        }
    }
}

/// Why a backend could not be activated.
#[derive(Debug, PartialEq, Eq, Structural)]
pub enum KeeperError {
    /// A backend of the same kind is active already.
    AlreadyActive,
}

/// Whether one of the backends is of the given kind.
pub open spec fn has_kind(backends: Seq<Backend>, kind: AvailableBackend) -> bool {
    exists|i: int| 0 <= i < backends.len() && #[trigger] backends[i].kind_of() == kind
}

/// No two of the backends are of the same kind.
pub open spec fn kinds_distinct(backends: Seq<Backend>) -> bool {
    forall|i: int, j: int|
        0 <= i < j < backends.len() ==> #[trigger] backends[i].kind_of() != #[trigger] backends[j].kind_of()
}

/// The backends active once each of `added` has been offered in turn to
/// `active`: one whose kind is active already is left out.
pub open spec fn activated_after(active: Seq<Backend>, added: Seq<Backend>) -> Seq<Backend>
    decreases added.len(),
{
    if added.len() == 0 {
        active
    } else {
        let before = activated_after(active, added.drop_last());
        if has_kind(before, added.last().kind_of()) {
            before
        } else {
            before.push(added.last())
        }
    }
}

/// The section of the settings file that holds the configuration `body` of
/// the backend whose key is `key`.
pub open spec fn backend_section(key: Seq<char>, body: Seq<char>) -> Seq<char> {
    "\n[backends."@ + key + "]\n"@ + body
}

/// The sections of the backends, in order; one whose configuration could not
/// be written (`None`) has none.
pub open spec fn backend_sections(backends: Seq<Backend>, bodies: Seq<Option<Seq<char>>>) -> Seq<char>
    decreases backends.len(),
{
    if backends.len() == 0 {
        Seq::empty()
    } else {
        backend_sections(backends.drop_last(), bodies.drop_last()) + match bodies.last() {
            Some(body) => backend_section(key_of(backends.last().kind_of()), body),
            None => Seq::empty(),
        }
    }
}

/// The settings file: the settings, then a section for each backend.
pub open spec fn config_text(settings: Seq<char>, backends: Seq<Backend>, bodies: Seq<Option<Seq<char>>>) -> Seq<char> {
    settings + backend_sections(backends, bodies)
}

/// The views of a sequence of optional strings.
pub open spec fn opt_strings_view(v: Seq<Option<String>>) -> Seq<Option<Seq<char>>> {
    v.map_values(|s: Option<String>| match s {
        Some(t) => Some(t@),
        None => None,
    })
}

/// Keeps the settings and the activated backends.
#[derive(Debug)]
pub struct LinkKeeper {
    activated_backends: Vec<Backend>,
    settings: Settings,
}

impl LinkKeeper {
    /// The activated backends, in the order of activation.
    pub closed spec fn backends(&self) -> Seq<Backend> {
        self.activated_backends@
    }

    /// The settings.
    pub closed spec fn settings_of(&self) -> Settings {
        self.settings
    }

    /// No two activated backends are of the same kind.
    pub open spec fn wf(&self) -> bool {
        kinds_distinct(self.backends())
    }

    /// A keeper with these settings and no activated backend.
    pub fn new(settings: Settings) -> (r: LinkKeeper)
        ensures
            r.wf(),
            r.backends() == Seq::<Backend>::empty(),
            r.settings_of() == settings,
    {
        LinkKeeper { activated_backends: Vec::new(), settings }
    }

    pub fn get_settings(&self) -> (r: &Settings)
        ensures
            *r == self.settings_of(),
    {
        &self.settings
    }

    pub fn get_raw_file_name(&self) -> (r: &String)
        ensures
            *r == self.settings_of().raw_file_name,
    {
        &self.settings.raw_file_name
    }

    /// The full path of the settings file.
    pub fn full_config_path(&self) -> (r: String)
        ensures
            r@ == joined_path(self.settings_of().config_path@, self.settings_of().config_file_name@),
    {
        join_path(self.settings.config_path.as_str(), self.settings.config_file_name.as_str())
    }

    /// Get all the activated backends.
    pub fn get_activated_backends(&self) -> (r: &Vec<Backend>)
        ensures
            r@ == self.backends(),
    {
        &self.activated_backends
    }

    /// Whether a backend of this kind is active.
    pub fn is_active(&self, kind: &AvailableBackend) -> (r: bool)
        ensures
            r == has_kind(self.backends(), *kind),
    {
        let mut i: usize = 0;
        while i < self.activated_backends.len()
            invariant
                i <= self.activated_backends.len(),
                forall|k: int| 0 <= k < i ==> #[trigger] self.backends()[k].kind_of() != *kind,
            decreases self.activated_backends.len() - i,
        {
            if self.activated_backends[i].kind() == *kind {
                assert(self.backends()[i as int].kind_of() == *kind);
                return true;
            }
            i += 1;
        }
        false
    }

    /// Activates a backend, unless one of the same kind is active already.
    pub fn add_backend(&mut self, backend: Backend) -> (r: Result<(), KeeperError>)
        requires
            old(self).wf(),
        ensures
            final(self).wf(),
            final(self).settings_of() == old(self).settings_of(),
            r is Err <==> has_kind(old(self).backends(), backend.kind_of()),
            r is Ok ==> final(self).backends() == old(self).backends().push(backend),
            r is Err ==> r == Err::<(), KeeperError>(KeeperError::AlreadyActive)
                && final(self).backends() == old(self).backends(),
    {
        let kind = backend.kind();
        if self.is_active(&kind) {
            return Err(KeeperError::AlreadyActive);
        }
        self.activated_backends.push(backend);
        assert forall|i: int, j: int| 0 <= i < j < self.backends().len() implies
            #[trigger] self.backends()[i].kind_of() != #[trigger] self.backends()[j].kind_of() by {
            if j == self.backends().len() - 1 {
                assert(old(self).backends()[i] == self.backends()[i]);
            } else {
                assert(old(self).backends()[i] == self.backends()[i]);
                assert(old(self).backends()[j] == self.backends()[j]);
            }
        }
        Ok(())
    }

    /// Activates the backends recorded in an earlier settings file, in order,
    /// each unless one of its kind is active already.
    pub fn register_backends(&mut self, backends: Option<Vec<Backend>>)
        requires
            old(self).wf(),
        ensures
            final(self).wf(),
            final(self).settings_of() == old(self).settings_of(),
            final(self).backends() == activated_after(old(self).backends(), match backends {
                Some(v) => v@,
                None => Seq::empty(),
            }),
    {
        let ghost start = self.backends();
        let mut added: Vec<Backend> = match backends {
            Some(v) => v,
            None => Vec::new(),
        };
        let ghost all = added@;
        let total = added.len();
        let mut n: usize = 0;
        while added.len() > 0
            invariant
                self.wf(),
                self.settings_of() == old(self).settings_of(),
                n + added.len() == total,
                total == all.len(),
                added@ =~= all.subrange(n as int, all.len() as int),
                self.backends() == activated_after(start, all.take(n as int)),
            decreases added.len(),
        {
            let next = added.remove(0);
            assert(next == all[n as int]);
            assert(all.take(n + 1).drop_last() =~= all.take(n as int));
            let _ = self.add_backend(next);
            n += 1;
            assert(added@ =~= all.subrange(n as int, all.len() as int));
        }
        assert(all.take(all.len() as int) =~= all);
    }

    /// Whether `link` occurs, character for character, in `raw_contents`, the
    /// text of a raw log.
    pub fn link_already_exists(&self, link: &str, raw_contents: &str) -> (r: bool)
        ensures
            r == is_substring(link@, raw_contents@),
    {
        contains_link(link, raw_contents)
    }

    /// The link to hand to every activated backend when `link` is added; an
    /// empty category stands for none.
    pub fn add(&self, link: &str, category: Option<&str>) -> (r: Link)
        ensures
            r@ == (LinkModel {
                url: link@,
                category: match category {
                    Some(c) => if c@.len() > 0 {
                        Some(c@)
                    } else {
                        None
                    },
                    None => None,
                },
            }),
            r@.wf(),
    {
        let category = match category {
            Some(c) => if c.is_empty() {
                None
            } else {
                Some(String::from_str(c))
            },
            None => None,
        };
        Link::new(String::from_str(link), category)
    }

    /// The settings file: `settings_toml`, the settings written as TOML, then
    /// for each backend in order whose configuration could be written
    /// (`backend_tomls[i]`), a `[backends.<key>]` section with that
    /// configuration.
    pub fn create_toml_string(&self, settings_toml: &str, backend_tomls: &Vec<Option<String>>) -> (r: String)
        requires
            backend_tomls.len() == self.backends().len(),
        ensures
            r@ == config_text(settings_toml@, self.backends(), opt_strings_view(backend_tomls@)),
    {
        let ghost bv = opt_strings_view(backend_tomls@);
        let mut out = String::from_str(settings_toml);
        let mut i: usize = 0;
        while i < self.activated_backends.len()
            invariant
                i <= self.activated_backends.len(),
                backend_tomls.len() == self.backends().len(),
                bv == opt_strings_view(backend_tomls@),
                out@ == config_text(settings_toml@, self.backends().take(i as int), bv.take(i as int)),
            decreases self.activated_backends.len() - i,
        {
            assert(self.backends().take(i + 1).drop_last() =~= self.backends().take(i as int));
            assert(bv.take(i + 1).drop_last() =~= bv.take(i as int));
            match &backend_tomls[i] {
                Some(body) => {
                    let key = self.activated_backends[i].kind().key();
                    out.append("\n[backends.");
                    out.append(key);
                    out.append("]\n");
                    out.append(body.as_str());
                },
                None => {},
            }
            assert(out@ =~= config_text(settings_toml@, self.backends().take(i + 1), bv.take(i + 1)));
            i += 1;
        }
        assert(self.backends().take(self.backends().len() as int) =~= self.backends());
        assert(bv.take(bv.len() as int) =~= bv);
        out
    }
}

/// Once a backend is activated, the settings file gains, at its end, a
/// `[backends.<key>]` section keyed by the backend's kind whose body is
/// exactly the backend's written configuration; the rest is unchanged.
pub proof fn lemma_config_has_backend_section(
    settings: Seq<char>,
    backends: Seq<Backend>,
    bodies: Seq<Option<Seq<char>>>,
    backend: Backend,
    body: Seq<char>,
)
    requires
        backends.len() == bodies.len(),
    ensures
        config_text(settings, backends.push(backend), bodies.push(Some(body)))
            == config_text(settings, backends, bodies) + backend_section(key_of(backend.kind_of()), body),
        is_substring(
            backend_section(key_of(backend.kind_of()), body),
            config_text(settings, backends.push(backend), bodies.push(Some(body))),
        ),
{
    let before = config_text(settings, backends, bodies);
    let section = backend_section(key_of(backend.kind_of()), body);
    let after = config_text(settings, backends.push(backend), bodies.push(Some(body)));
    assert(backends.push(backend).drop_last() =~= backends);
    assert(bodies.push(Some(body)).drop_last() =~= bodies);
    assert(after =~= before + section);
    let at = before.len() as int;
    assert(after.subrange(at, at + section.len()) =~= section);
}

} // verus!
