use crate::error::Error;
use crate::types::database_ids::{DatabaseIdTrait, RepositoryId, UserId};
use crate::types::enc_string::EncString;
use crate::types::item::{clone_option_text, option_text};
use crate::types::text::text_eq;
use vstd::prelude::*;
use vstd::std_specs::convert::FromSpecImpl;

verus! {

/// Who may read a repository without holding a grant on it.
#[derive(Clone, Copy, Debug, PartialEq, Eq, PartialOrd, Structural)]
pub enum RepositoryStatus {
    /// Only the owner and the subscribers.
    Private,
    /// Whoever knows the repository; it is not listed.
    Hidden,
    /// Everyone; it is listed.
    Public,
}

impl RepositoryStatus {
    /// The name under which the status is stored.
    pub open spec fn spec_name(&self) -> Seq<char> {
        match self {
            RepositoryStatus::Private => "private"@,
            RepositoryStatus::Hidden => "hidden"@,
            RepositoryStatus::Public => "public"@,
        }
    }

    /// The status that a stored name stands for; `Private` for any name
    /// that is not one of the three.
    pub open spec fn of_name(name: Seq<char>) -> RepositoryStatus {
        if name == "hidden"@ {
            RepositoryStatus::Hidden
        } else if name == "public"@ {
            RepositoryStatus::Public
        } else {
            RepositoryStatus::Private
        }
    }

    pub fn name(&self) -> (r: &'static str)
        ensures
            r@ == self.spec_name(),
    {
        match self {
            RepositoryStatus::Private => "private",
            RepositoryStatus::Hidden => "hidden",
            RepositoryStatus::Public => "public",
        }
    }

    /// The status that a stored name stands for.
    pub fn from_name(name: &str) -> (r: Self)
        ensures
            r == Self::of_name(name@),
    {
        if text_eq(name, "hidden") {
            RepositoryStatus::Hidden
        } else if text_eq(name, "public") {
            RepositoryStatus::Public
        } else {
            RepositoryStatus::Private
        }
    }

    /// Reading the stored name of a status gives the status back.
    pub proof fn lemma_name_round_trip(self)
        ensures
            Self::of_name(self.spec_name()) == self,
    {
        reveal_strlit("private");
        reveal_strlit("hidden");
        reveal_strlit("public");
        assert("private"@.len() == 7);
        assert("hidden"@.len() == 6);
        assert("public"@[0] == 'p');
        assert("hidden"@[0] == 'h');
    }
}

impl Default for RepositoryStatus {
    fn default() -> (r: Self)
        ensures
            r == RepositoryStatus::Private,
    {
        RepositoryStatus::Private
    }
}

impl From<String> for RepositoryStatus {
    fn from(value: String) -> (r: Self) {
        Self::from_name(value.as_str())
    }
}

impl FromSpecImpl<String> for RepositoryStatus {
    open spec fn obeys_from_spec() -> bool {
        true
    }

    open spec fn from_spec(value: String) -> Self {
        Self::of_name(value@)
    }
}

/// An owned tree of items with its sharing policy.
#[derive(Debug)]
pub struct Repository {
    id: RepositoryId,
    pub url_name: EncString,
    pub owner: UserId,
    pub description: Option<EncString>,
    pub status: RepositoryStatus,
    pub display_name: EncString,
    pub max_file_size: Option<i64>,
    pub visitor_file_lifetime: Option<i64>,
    pub allow_visitor_upload: bool,
}

/// The mathematical value of a [`Repository`].
pub ghost struct RepositoryView {
    pub id: RepositoryId,
    pub url_name: Seq<char>,
    pub owner: UserId,
    pub description: Option<Seq<char>>,
    pub status: RepositoryStatus,
    pub display_name: Seq<char>,
    pub max_file_size: Option<i64>,
    pub visitor_file_lifetime: Option<i64>,
    pub allow_visitor_upload: bool,
}

impl View for Repository {
    type V = RepositoryView;

    closed spec fn view(&self) -> RepositoryView {
        RepositoryView {
            id: self.id,
            url_name: self.url_name@,
            owner: self.owner,
            description: option_text(self.description),
            status: self.status,
            display_name: self.display_name@,
            max_file_size: self.max_file_size,
            visitor_file_lifetime: self.visitor_file_lifetime,
            allow_visitor_upload: self.allow_visitor_upload,
        }
    }
}

impl Repository {
    /// Gives the repository its key. Fails where it already has one.
    pub fn set_id(&mut self, id: RepositoryId) -> (r: Result<(), Error>)
        ensures
            match r {
                Ok(_) => !old(self)@.id.spec_is_valid() && final(self)@ == (RepositoryView {
                    id,
                    ..old(self)@
                }),
                Err(e) => e == Error::InvalidArgument && old(self)@.id.spec_is_valid()
                    && final(self)@ == old(self)@,
            },
    {
        if self.id.is_valid() {
            Err(Error::InvalidArgument)
        } else {
            self.id = id;
            Ok(())
        }
    }

    pub fn id(&self) -> (r: &RepositoryId)
        ensures
            *r == self@.id,
    {
        &self.id
    }

    pub fn url_name(&self) -> (r: &EncString)
        ensures
            r@ == self@.url_name,
    {
        &self.url_name
    }

    pub fn owner(&self) -> (r: UserId)
        ensures
            r == self@.owner,
    {
        self.owner
    }

    pub fn status(&self) -> (r: RepositoryStatus)
        ensures
            r == self@.status,
    {
        self.status
    }

    pub fn allow_visitor_upload(&self) -> (r: bool)
        ensures
            r == self@.allow_visitor_upload,
    {
        self.allow_visitor_upload
    }

    /// A repository with the given names, owner and status, and no key.
    pub fn new(
        url_name: EncString,
        display_name: EncString,
        owner: UserId,
        status: RepositoryStatus,
    ) -> (r: Self)
        ensures
            r@ == (RepositoryView {
                id: RepositoryId(0),
                url_name: url_name@,
                owner,
                description: None,
                status,
                display_name: display_name@,
                max_file_size: None,
                visitor_file_lifetime: None,
                allow_visitor_upload: false,
            }),
    {
        Repository {
            id: RepositoryId(0),
            url_name,
            owner,
            description: None,
            status,
            display_name,
            max_file_size: None,
            visitor_file_lifetime: None,
            allow_visitor_upload: false,
        }
    }

    /// The repository as it is stored under the key `id`.
    pub fn stored_as(&self, id: RepositoryId) -> (r: Self)
        ensures
            r@ == (RepositoryView { id, ..self@ }),
    {
        Repository {
            id,
            url_name: self.url_name.clone(),
            owner: self.owner,
            description: clone_option_text(&self.description),
            status: self.status,
            display_name: self.display_name.clone(),
            max_file_size: self.max_file_size,
            visitor_file_lifetime: self.visitor_file_lifetime,
            allow_visitor_upload: self.allow_visitor_upload,
        }
    }
}

impl Clone for Repository {
    fn clone(&self) -> (r: Self)
        ensures
            r@ == self@,
    {
        self.stored_as(self.id)
    }
}

impl Default for Repository {
    fn default() -> (r: Self)
        ensures
            r@ == (RepositoryView {
                id: RepositoryId(0),
                url_name: Seq::empty(),
                owner: UserId(0),
                description: None,
                status: RepositoryStatus::Private,
                display_name: Seq::empty(),
                max_file_size: None,
                visitor_file_lifetime: None,
                allow_visitor_upload: false,
            }),
    {
        Repository::new(
            EncString::default(),
            EncString::default(),
            UserId(0),
            RepositoryStatus::Private,
        )
    }
}

} // verus!
