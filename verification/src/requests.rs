//! The bodies and query strings the REST API accepts, and what each handler
//! derives from them before it touches the database.
use vstd::prelude::*;

use crate::auth::{password_outcome, validate_password};
use crate::error::{text_outcome, unit_outcome, AppError, ErrorView};
use crate::routes::{
    clean_spec, clean_text, escape_like_spec, login_identifier, login_outcome, page_limit,
    page_offset, prefix_pattern, search_query, suggestion_limit, username_key,
};
use crate::text::{lowercase, opt_view, to_lowercase, trim, trim_str};
use crate::validate::{
    bio_outcome, display_name_outcome, email_outcome, interests_outcome, list_outcome,
    normalize_username, normalized_interests, username_outcome, validate_bio,
    validate_display_name, validate_email, validate_interests,
};

verus! {

// ---------------------------------------------------------------------------
// Accounts
// ---------------------------------------------------------------------------

pub struct RegisterReq {
    pub username: String,
    pub email: String,
    pub password: String,
    pub display_name: Option<String>,
}

/// The validated fields of a new account.
#[derive(Debug)]
pub struct NewAccount {
    pub username: String,
    pub email: String,
    pub display_name: String,
}

/// Registration checks, in order: username, email, password, display name
/// (the username when none is given).
pub open spec fn register_outcome(
    username: Seq<char>,
    email: Seq<char>,
    password: Seq<char>,
    display_name: Option<Seq<char>>,
) -> Result<(Seq<char>, Seq<char>, Seq<char>), ErrorView> {
    match username_outcome(lowercase(trim(username))) {
        Err(e) => Err(e),
        Ok(u) => match email_outcome(lowercase(trim(email))) {
            Err(e) => Err(e),
            Ok(m) => match password_outcome(password) {
                Err(e) => Err(e),
                Ok(_) => match display_name {
                    None => Ok((u, m, u)),
                    Some(n) => match display_name_outcome(n) {
                        Err(e) => Err(e),
                        Ok(d) => Ok((u, m, d)),
                    },
                },
            },
        },
    }
}

pub open spec fn account_outcome(r: Result<NewAccount, AppError>) -> Result<
    (Seq<char>, Seq<char>, Seq<char>),
    ErrorView,
> {
    match r {
        Ok(a) => Ok((a.username@, a.email@, a.display_name@)),
        Err(e) => Err(e@),
    }
}

impl RegisterReq {
    pub fn validate(&self) -> (r: Result<NewAccount, AppError>)
        ensures
            account_outcome(r) == register_outcome(
                self.username@,
                self.email@,
                self.password@,
                opt_view(self.display_name),
            ),
    {
        let username = match normalize_username(self.username.as_str()) {
            Ok(u) => u,
            Err(e) => return Err(e),
        };
        let email = match validate_email(self.email.as_str()) {
            Ok(m) => m,
            Err(e) => return Err(e),
        };
        match validate_password(self.password.as_str()) {
            Ok(()) => {},
            Err(e) => return Err(e),
        }
        let display_name = match &self.display_name {
            Some(n) => match validate_display_name(n.as_str()) {
                Ok(d) => d,
                Err(e) => return Err(e),
            },
            None => username.clone(),
        };
        Ok(NewAccount { username, email, display_name })
    }
}

pub struct LoginReq {
    pub identifier: String,
    pub password: String,
}

impl LoginReq {
    /// The username or email to look up (see `login_outcome`).
    pub fn lookup_key(&self) -> (r: Result<String, AppError>)
        ensures
            text_outcome(r) == login_outcome(lowercase(trim(self.identifier@)), self.password@),
    {
        login_identifier(self.identifier.as_str(), self.password.as_str())
    }
}

pub struct RefreshReq {
    pub refresh_token: String,
}

pub struct LogoutReq {
    pub refresh_token: Option<String>,
}

pub struct PasswordReq {
    pub current_password: String,
    pub new_password: String,
}

impl PasswordReq {
    /// The new password must meet the password policy.
    pub fn check_new_password(&self) -> (r: Result<(), AppError>)
        ensures
            unit_outcome(r) == password_outcome(self.new_password@),
    {
        validate_password(self.new_password.as_str())
    }
}

// ---------------------------------------------------------------------------
// Profile
// ---------------------------------------------------------------------------

pub struct UpdateProfileReq {
    pub display_name: Option<String>,
    pub bio: Option<String>,
    pub is_private: Option<bool>,
    pub location_name: Option<String>,
}

/// The fields of a profile update after validation; `None` keeps the
/// stored value.
#[derive(Debug)]
pub struct ProfileUpdate {
    pub display_name: Option<String>,
    pub bio: Option<String>,
    pub is_private: Option<bool>,
    pub location_name: Option<String>,
}

pub open spec fn update_outcome(
    display_name: Option<Seq<char>>,
    bio: Option<Seq<char>>,
    is_private: Option<bool>,
    location_name: Option<Seq<char>>,
) -> Result<(Option<Seq<char>>, Option<Seq<char>>, Option<bool>, Option<Seq<char>>), ErrorView> {
    let d = match display_name {
        Some(n) => match display_name_outcome(n) {
            Ok(x) => Ok(Some(x)),
            Err(e) => Err(e),
        },
        None => Ok(None),
    };
    match d {
        Err(e) => Err(e),
        Ok(dv) => {
            let b = match bio {
                Some(t) => match bio_outcome(t) {
                    Ok(x) => Ok(Some(x)),
                    Err(e) => Err(e),
                },
                None => Ok(None),
            };
            match b {
                Err(e) => Err(e),
                Ok(bv) => Ok(
                    (
                        dv,
                        bv,
                        is_private,
                        match location_name {
                            Some(l) => Some(clean_spec(l, 120)),
                            None => None,
                        },
                    ),
                ),
            }
        },
    }
}

pub open spec fn profile_outcome(r: Result<ProfileUpdate, AppError>) -> Result<
    (Option<Seq<char>>, Option<Seq<char>>, Option<bool>, Option<Seq<char>>),
    ErrorView,
> {
    match r {
        Ok(p) => Ok((opt_view(p.display_name), opt_view(p.bio), p.is_private, opt_view(p.location_name))),
        Err(e) => Err(e@),
    }
}

impl UpdateProfileReq {
    /// Display name and bio are validated (display name first); a location
    /// name is cleaned to at most 120 characters.
    pub fn normalized(&self) -> (r: Result<ProfileUpdate, AppError>)
        ensures
            profile_outcome(r) == update_outcome(
                opt_view(self.display_name),
                opt_view(self.bio),
                self.is_private,
                opt_view(self.location_name),
            ),
    {
        let display_name = match &self.display_name {
            Some(n) => match validate_display_name(n.as_str()) {
                Ok(d) => Some(d),
                Err(e) => return Err(e),
            },
            None => None,
        };
        let bio = match &self.bio {
            Some(b) => match validate_bio(b.as_str()) {
                Ok(t) => Some(t),
                Err(e) => return Err(e),
            },
            None => None,
        };
        let location_name = match &self.location_name {
            Some(l) => Some(clean_text(l.as_str(), 120)),
            None => None,
        };
        Ok(ProfileUpdate { display_name, bio, is_private: self.is_private, location_name })
    }
}

pub struct InterestsReq {
    pub interests: Vec<String>,
}

impl InterestsReq {
    pub fn validated(&self) -> (r: Result<Vec<String>, AppError>)
        ensures
            list_outcome(r) == interests_outcome(normalized_interests(self.interests@)),
    {
        validate_interests(self.interests.as_slice())
    }
}

// ---------------------------------------------------------------------------
// Query strings
// ---------------------------------------------------------------------------

pub struct SearchParams {
    pub q: String,
    pub limit: Option<i64>,
    pub offset: Option<i64>,
}

impl SearchParams {
    /// The trimmed query; `None` when it is blank (nothing is searched).
    pub fn query(&self) -> (r: Option<String>)
        ensures
            trim(self.q@).len() == 0 ==> r is None,
            trim(self.q@).len() > 0 ==> (r matches Some(t) && t@ == trim(self.q@)),
    {
        search_query(self.q.as_str())
    }

    /// 20 results by default, between 1 and 50.
    pub fn page_size(&self) -> (r: i64)
        ensures
            r == (match self.limit {
                Some(x) => if x < 1 {
                    1
                } else if x > 50 {
                    50
                } else {
                    x
                },
                None => 20,
            }),
    {
        page_limit(self.limit, 20, 1, 50)
    }

    pub fn page_offset(&self) -> (r: i64)
        ensures
            r == (match self.offset {
                Some(x) => if x < 0 {
                    0
                } else {
                    x
                },
                None => 0,
            }),
    {
        page_offset(self.offset)
    }
}

pub struct ListParams {
    pub limit: Option<i64>,
    pub offset: Option<i64>,
    pub username: Option<String>,
}

impl ListParams {
    /// 30 users by default, between 1 and 100.
    pub fn page_size(&self) -> (r: i64)
        ensures
            r == (match self.limit {
                Some(x) => if x < 1 {
                    1
                } else if x > 100 {
                    100
                } else {
                    x
                },
                None => 30,
            }),
    {
        page_limit(self.limit, 30, 1, 100)
    }

    pub fn page_offset(&self) -> (r: i64)
        ensures
            r == (match self.offset {
                Some(x) => if x < 0 {
                    0
                } else {
                    x
                },
                None => 0,
            }),
    {
        page_offset(self.offset)
    }

    /// The user whose list is asked for, trimmed and lower-cased; `None`
    /// means the caller's own list.
    pub fn target_username(&self) -> (r: Option<String>)
        ensures
            match self.username {
                Some(u) => r matches Some(k) && k@ == lowercase(trim(u@)),
                None => r is None,
            },
    {
        match &self.username {
            Some(u) => Some(username_key(u.as_str())),
            None => None,
        }
    }
}

pub struct SuggestionsParams {
    pub limit: Option<usize>,
}

impl SuggestionsParams {
    /// 24 suggestions by default, between 6 and 60.
    pub fn count(&self) -> (r: usize)
        ensures
            r == ({
                let v = match self.limit {
                    Some(x) => x,
                    None => 24,
                };
                if v < 6 {
                    6
                } else if v > 60 {
                    60
                } else {
                    v
                }
            }),
    {
        suggestion_limit(self.limit)
    }
}

pub struct InterestsParams {
    pub q: Option<String>,
}

/// The interest prefix asked for, trimmed and lower-cased; none when blank.
pub open spec fn interest_prefix_spec(q: Option<Seq<char>>) -> Option<Seq<char>> {
    let t = lowercase(
        trim(
            match q {
                Some(s) => s,
                None => Seq::empty(),
            },
        ),
    );
    if t.len() == 0 {
        None
    } else {
        Some(t)
    }
}

impl InterestsParams {
    /// The `LIKE` pattern for the interests that start with the query; none
    /// when the query is blank (the most used interests are listed then).
    pub fn prefix_pattern(&self) -> (r: Option<String>)
        ensures
            match interest_prefix_spec(opt_view(self.q)) {
                Some(t) => r matches Some(p) && p@ == escape_like_spec(t) + seq!['%'],
                None => r is None,
            },
    {
        let t = match &self.q {
            Some(s) => trim_str(s.as_str()),
            None => String::new(),
        };
        proof {
            if self.q is None {
                assert(t@ =~= trim(Seq::<char>::empty()));
            }
        }
        let l = to_lowercase(t.as_str());
        if l.as_str().is_empty() {
            None
        } else {
            Some(prefix_pattern(l.as_str()))
        }
    }
}

pub struct FileQuery {
    pub token: Option<String>,
}

pub struct WsQuery {
    pub token: Option<String>,
}

} // verus!
