use vstd::prelude::*;
use crate::file_handling::{join_path, joined_path};
use crate::link::{Link, LinkModel};

verus! {

/// A secret that signs a user in to a service.
#[derive(Debug, Default, PartialEq)]
pub struct AccessToken(pub String);

/// Where a Git backend keeps its links.
#[derive(Debug, Default, PartialEq)]
pub struct GitConfig {
    /// The directory of the repository.
    pub repository_path: String,
    /// The Markdown index, relative to the repository.
    pub file_name: String,
    /// Whether each new link is pushed to the repository's remotes.
    pub push_on_add: bool,
}

/// A backend that keeps the links in a Git repository.
#[derive(Debug)]
pub struct Git {
    pub config: GitConfig,
}

/// How a GitHub backend signs in.
#[derive(Debug, Default, PartialEq)]
pub struct GithubConfig {
    pub access_token: AccessToken,
}

/// A backend that keeps the links on GitHub.
#[derive(Debug)]
pub struct Github {
    pub config: GithubConfig,
}

/// The kinds of backend that can be activated.
#[derive(Debug, PartialEq, Eq, Structural)]
pub enum AvailableBackend {
    Git,
    Github,
}

/// An activated backend.
#[derive(Debug)]
pub enum Backend {
    Git(Git),
    Github(Github),
}

/// What follows a commit of a new link to a Git backend.
#[derive(Debug, PartialEq, Eq, Structural)]
pub enum PushPlan {
    /// Pushing is off: nothing is pushed.
    Skip,
    /// Pushing is on but the repository has no remote: a warning is shown.
    WarnNoRemotes,
    /// The current branch is pushed to every remote.
    PushToAll,
}

/// The name under which a kind of backend is shown.
pub open spec fn display_name_of(kind: AvailableBackend) -> Seq<char> {
    match kind {
        AvailableBackend::Git => seq!['G', 'i', 't'],
        AvailableBackend::Github => seq!['G', 'i', 't', 'h', 'u', 'b'],
    }
}

/// The key of a kind of backend in the settings file: its shown name in lower
/// case.
pub open spec fn key_of(kind: AvailableBackend) -> Seq<char> {
    match kind {
        AvailableBackend::Git => seq!['g', 'i', 't'],
        AvailableBackend::Github => seq!['g', 'i', 't', 'h', 'u', 'b'],
    }
}

impl AvailableBackend {
    /// The kind at a place of the menu: Git first, then GitHub.
    pub fn from_index(index: usize) -> (r: Option<AvailableBackend>)
        ensures
            index == 0 ==> r == Some(AvailableBackend::Git),
            index == 1 ==> r == Some(AvailableBackend::Github),
            index > 1 ==> r is None,
    {
        if index == 0 {
            Some(AvailableBackend::Git)
        } else if index == 1 {
            Some(AvailableBackend::Github)
        } else {
            None
        }
    }

    /// The kind whose key in the settings file is `key`.
    pub fn from_key(key: &str) -> (r: Option<AvailableBackend>)
        ensures
            r matches Some(kind) ==> key_of(kind) == key@,
            r is None ==> key@ != key_of(AvailableBackend::Git)
                && key@ != key_of(AvailableBackend::Github),
    {
        let k = String::from_str(key);
        let git = String::from_str("git");
        let github = String::from_str("github");
        proof {
            reveal_strlit("git");
            reveal_strlit("github");
        }
        assert("git"@ =~= key_of(AvailableBackend::Git));
        assert("github"@ =~= key_of(AvailableBackend::Github));
        if k == git {
            Some(AvailableBackend::Git)
        } else if k == github {
            Some(AvailableBackend::Github)
        } else {
            None
        }
    }

    /// The name under which the kind is shown.
    pub fn display_name(&self) -> (r: &'static str)
        ensures
            r@ == display_name_of(*self),
    {
        proof {
            reveal_strlit("Git");
            reveal_strlit("Github");
        }
        match self {
            AvailableBackend::Git => {
                assert("Git"@ =~= display_name_of(AvailableBackend::Git));
                "Git"
            },
            AvailableBackend::Github => {
                assert("Github"@ =~= display_name_of(AvailableBackend::Github));
                "Github"
            },
        }
    }

    /// The key of the kind in the settings file.
    pub fn key(&self) -> (r: &'static str)
        ensures
            r@ == key_of(*self),
    {
        proof {
            reveal_strlit("git");
            reveal_strlit("github");
        }
        match self {
            AvailableBackend::Git => {
                assert("git"@ =~= key_of(AvailableBackend::Git));
                "git"
            },
            AvailableBackend::Github => {
                assert("github"@ =~= key_of(AvailableBackend::Github));
                "github"
            },
        }
    }
}

impl Backend {
    /// The kind of the backend.
    pub open spec fn kind_of(&self) -> AvailableBackend {
        match self {
            Backend::Git(_) => AvailableBackend::Git,
            Backend::Github(_) => AvailableBackend::Github,
        }
    }

    pub fn kind(&self) -> (r: AvailableBackend)
        ensures
            r == self.kind_of(),
    {
        match self {
            Backend::Git(_) => AvailableBackend::Git,
            Backend::Github(_) => AvailableBackend::Github,
        }
    }

    /// Signs in to the backend's service; neither backend needs to.
    pub fn sign_in(&self, _access_token: &AccessToken) -> (r: Result<(), ()>)
        ensures
            r is Ok,
    {
        Ok(())
    }

    /// Signs out of the backend's service; neither backend needs to.
    pub fn sign_out(&self, _access_token: &AccessToken) -> (r: Result<(), ()>)
        ensures
            r is Ok,
    {
        Ok(())
    }
}

/// The message of the commit that adds a link.
pub open spec fn commit_message_of(link: LinkModel) -> Seq<char> {
    "Adding link with url: "@ + link.url + seq![' '] + match link.category {
        Some(c) => "and category: "@ + c,
        None => Seq::empty(),
    }
}

impl Git {
    /// The full path of the Markdown index.
    pub fn joined(&self) -> (r: String)
        ensures
            r@ == joined_path(self.config.repository_path@, self.config.file_name@),
    {
        join_path(self.config.repository_path.as_str(), self.config.file_name.as_str())
    }

    /// The message of the commit that adds `link`: it names the URL and,
    /// where there is one, the category.
    pub fn commit_message(link: &Link) -> (r: String)
        ensures
            r@ == commit_message_of(link@),
    {
        let mut message = String::from_str("Adding link with url: ");
        message.append(link.url.as_str());
        message.append(" ");
        proof {
            reveal_strlit(" ");
        }
        match &link.category {
            Some(c) => {
                message.append("and category: ");
                message.append(c.as_str());
            },
            None => {},
        }
        assert(message@ =~= commit_message_of(link@));
        message
    }

    /// What to do once a link is committed, given how many remotes the
    /// repository has: push to all of them where pushing is on and there is
    /// one, warn where pushing is on and there is none.
    pub fn push_plan(&self, remote_count: usize) -> (r: PushPlan)
        ensures
            !self.config.push_on_add ==> r == PushPlan::Skip,
            self.config.push_on_add && remote_count == 0 ==> r == PushPlan::WarnNoRemotes,
            self.config.push_on_add && remote_count > 0 ==> r == PushPlan::PushToAll,
    {
        if !self.config.push_on_add {
            PushPlan::Skip
        } else if remote_count == 0 {
            PushPlan::WarnNoRemotes
        } else {
            PushPlan::PushToAll
        }
    }
}

} // verus!
