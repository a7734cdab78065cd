//! Accounts and the token gate: the account record and its builders, the
//! stored password form, and the lookup decisions the write operations rest
//! on.  Database reads and writes stay outside the library and hand rows in.

use vstd::prelude::*;

use crate::errors::RegistryError;
use crate::hashes::md5_hex;
use crate::hashes::spec_md5_hex;
use vstd::utf8::encode_utf8;

verus! {

/// The rank of an account.
pub enum AccountRole {
    Root,
    Admin,
    User,
}

impl AccountRole {
    /// The name the role is stored under.
    pub fn as_str(&self) -> (r: &'static str)
        ensures
            r@ == self.spec_str(),
    {
        match self {
            AccountRole::Root => "Root",
            AccountRole::Admin => "Admin",
            AccountRole::User => "User",
        }
    }

    pub open spec fn spec_str(&self) -> Seq<char> {
        match self {
            AccountRole::Root => "Root"@,
            AccountRole::Admin => "Admin"@,
            AccountRole::User => "User"@,
        }
    }
}

/// How an account authenticates.
pub enum AccountType {
    Internal,
    Ldap,
}

impl AccountType {
    /// The name the type is stored under.
    pub fn as_str(&self) -> (r: &'static str)
        ensures
            r@ == self.spec_str(),
    {
        match self {
            AccountType::Internal => "Internal",
            AccountType::Ldap => "Ldap",
        }
    }

    pub open spec fn spec_str(&self) -> Seq<char> {
        match self {
            AccountType::Internal => "Internal"@,
            AccountType::Ldap => "Ldap"@,
        }
    }
}

/// An account row as it is written: the unique username, the display name,
/// the salt the password was hashed with, the authentication type and role,
/// the stored password hash, and the login token once one was issued.
pub struct Account {
    pub username: String,
    pub display_name: String,
    pub salt: String,
    pub email: Option<String>,
    pub type_: String,
    pub role: String,
    pub password: String,
    pub last_login: Option<String>,
    pub token: Option<String>,
}

/// An account row as it is read back, with its assigned id and creation
/// time.
pub struct AccountWithId {
    pub id: i32,
    pub username: String,
    pub display_name: String,
    pub salt: String,
    pub email: Option<String>,
    pub type_: String,
    pub role: String,
    pub password: String,
    pub created_at: String,
    pub last_login: Option<String>,
    pub token: Option<String>,
}

impl From<AccountWithId> for Account {
    fn from(a: AccountWithId) -> (r: Account) {
        Account {
            username: a.username,
            display_name: a.display_name,
            salt: a.salt,
            email: a.email,
            type_: a.type_,
            role: a.role,
            password: a.password,
            last_login: a.last_login,
            token: a.token,
        }
    }
}

impl vstd::std_specs::convert::FromSpecImpl<AccountWithId> for Account {
    open spec fn obeys_from_spec() -> bool {
        true
    }

    open spec fn from_spec(a: AccountWithId) -> Account {
        Account {
            username: a.username,
            display_name: a.display_name,
            salt: a.salt,
            email: a.email,
            type_: a.type_,
            role: a.role,
            password: a.password,
            last_login: a.last_login,
            token: a.token,
        }
    }
}

/// The bytes whose MD5 an internal account stores:
/// `<username>:<salt>:<plaintext>` in UTF-8.
pub open spec fn spec_password_input(
    username: Seq<char>,
    salt: Seq<char>,
    pwd: Seq<char>,
) -> Seq<u8> {
    encode_utf8(username + ":"@ + salt + ":"@ + pwd)
}

impl Account {
    /// A fresh account of the given type and role: the display name starts
    /// as the username and everything else empty.
    pub fn new(username: String, type_: String, role: String) -> (r: Account)
        ensures
            r.username == username,
            r.display_name == username,
            r.type_ == type_,
            r.role == role,
            r.salt@ == Seq::<char>::empty(),
            r.password@ == Seq::<char>::empty(),
            r.email is None,
            r.last_login is None,
            r.token is None,
    {
        Account {
            display_name: username.clone(),
            username,
            salt: String::new(),
            email: None,
            type_,
            role,
            password: String::new(),
            last_login: None,
            token: None,
        }
    }

    /// Hashes and stores a plaintext password under the given salt: the
    /// stored form is the lowercase hex MD5 of `username:salt:plaintext`.
    pub fn password(&mut self, salt: &str, pwd: &str)
        ensures
            final(self).password@ == spec_md5_hex(
                spec_password_input(old(self).username@, salt@, pwd@),
            ),
            final(self).salt@ == salt@,
            *final(self) == (Account {
                password: final(self).password,
                salt: final(self).salt,
                ..*old(self)
            }),
    {
        let mut input = self.username.clone();
        input.append(":");
        input.append(salt);
        input.append(":");
        input.append(pwd);
        self.password = md5_hex(input.as_str().as_bytes());
        self.salt = String::from_str(salt);
    }

    /// Stores a password hash that was computed elsewhere.
    pub fn encoded_password(&mut self, pwd: String)
        ensures
            *final(self) == (Account { password: pwd, ..*old(self) }),
    {
        self.password = pwd;
    }

    pub fn salt(&mut self, salt: String)
        ensures
            *final(self) == (Account { salt: salt, ..*old(self) }),
    {
        self.salt = salt;
    }

    pub fn display_name(&mut self, new_value: String)
        ensures
            *final(self) == (Account { display_name: new_value, ..*old(self) }),
    {
        self.display_name = new_value;
    }

    pub fn email(&mut self, new_value: String)
        ensures
            *final(self) == (Account { email: Some(new_value), ..*old(self) }),
    {
        self.email = Some(new_value);
    }

    pub fn token(&mut self, new_value: String)
        ensures
            *final(self) == (Account { token: Some(new_value), ..*old(self) }),
    {
        self.token = Some(new_value);
    }

    pub fn last_login(&mut self, new_value: String)
        ensures
            *final(self) == (Account { last_login: Some(new_value), ..*old(self) }),
    {
        self.last_login = Some(new_value);
    }

    pub fn set_role(&mut self, new_value: String)
        ensures
            *final(self) == (Account { role: new_value, ..*old(self) }),
    {
        self.role = new_value;
    }

    /// Whether the account ranks above a plain user: its role is root or
    /// admin rather than plain user.
    pub fn is_admin(&self) -> (r: bool)
        ensures
            r == (self.role@ != "User"@),
    {
        !crate::gitcmd::str_eq(self.role.as_str(), "User")
    }
}

/// The outstanding digest-auth challenges: nonce and opaque pairs, oldest
/// first, never more than 256.
pub struct NonceList {
    pub entries: Vec<(String, String)>,
}

impl NonceList {
    /// Whether the list respects its bound.
    pub open spec fn wf(self) -> bool {
        self.entries@.len() <= 256
    }

    /// An empty challenge list.
    pub fn new() -> (r: NonceList)
        ensures
            r.wf(),
            r.entries@.len() == 0,
    {
        NonceList { entries: Vec::new() }
    }

    /// Records a fresh challenge, evicting the oldest entries so that at
    /// most 256 remain.
    pub fn push(&mut self, nonce: String, opaque: String)
        ensures
            final(self).wf(),
            final(self).entries@.len() <= 256,
            old(self).entries@.len() < 256 ==> final(self).entries@ == old(self).entries@.push(
                (nonce, opaque),
            ),
            old(self).entries@.len() >= 256 ==> final(self).entries@ == old(self).entries@.skip(
                old(self).entries@.len() - 255,
            ).push((nonce, opaque)),
    {
        let ghost orig = self.entries@;
        let ghost n0 = self.entries@.len() as int;
        proof {
            assert(orig.skip(0) =~= orig);
        }
        while self.entries.len() >= 256
            invariant
                orig == old(self).entries@,
                n0 == orig.len(),
                self.entries@ == orig.skip(n0 - self.entries@.len()),
                self.entries@.len() <= n0,
                n0 >= 256 ==> self.entries@.len() >= 255,
                n0 < 256 ==> self.entries@.len() == n0,
            decreases self.entries@.len(),
        {
            let _ = self.entries.remove(0);
            proof {
                assert(self.entries@ =~= orig.skip(n0 - self.entries@.len()));
            }
        }
        self.entries.push((nonce, opaque));
        proof {
            if n0 < 256 {
                assert(old(self).entries@.skip(0) =~= old(self).entries@);
            }
        }
    }
}

/// Whether the account carries the given login token.
pub open spec fn spec_token_matches(a: Account, tk: Seq<char>) -> bool {
    a.token matches Some(t) && t@ == tk
}

/// Looks a login token up among the accounts: exactly one account may
/// carry it.  An unknown token is refused; a duplicated one is a corrupt
/// store.
pub fn get_user_by_token(accounts: &Vec<Account>, tk: &str) -> (r: Result<usize, RegistryError>)
    ensures
        match r {
            Ok(i) => {
                &&& i < accounts@.len()
                &&& spec_token_matches(accounts@[i as int], tk@)
                &&& forall|j: int|
                    0 <= j < accounts@.len() && j != i ==> !spec_token_matches(
                        #[trigger] accounts@[j],
                        tk@,
                    )
            },
            Err(e) => {
                &&& e == RegistryError::Unauthorized ==> forall|j: int|
                    0 <= j < accounts@.len() ==> !spec_token_matches(#[trigger] accounts@[j], tk@)
                &&& e == RegistryError::Internal ==> exists|i: int, j: int|
                    0 <= i < j < accounts@.len() && spec_token_matches(#[trigger] accounts@[i], tk@)
                        && spec_token_matches(#[trigger] accounts@[j], tk@)
                &&& (e == RegistryError::Unauthorized || e == RegistryError::Internal)
            },
        },
{
    let len = accounts.len();
    let mut found: Option<usize> = None;
    let mut i: usize = 0;
    while i < len
        invariant
            len == accounts@.len(),
            i <= len,
            match found {
                Some(f) => {
                    &&& f < i
                    &&& spec_token_matches(accounts@[f as int], tk@)
                    &&& forall|j: int|
                        0 <= j < i && j != f ==> !spec_token_matches(#[trigger] accounts@[j], tk@)
                },
                None => forall|j: int|
                    0 <= j < i ==> !spec_token_matches(#[trigger] accounts@[j], tk@),
            },
        decreases len - i,
    {
        let matches = match &accounts[i].token {
            Some(t) => crate::gitcmd::str_eq(t.as_str(), tk),
            None => false,
        };
        if matches {
            match found {
                Some(_) => {
                    return Err(RegistryError::Internal);
                },
                None => {
                    found = Some(i);
                },
            }
        }
        i = i + 1;
    }
    match found {
        Some(f) => Ok(f),
        None => Err(RegistryError::Unauthorized),
    }
}

/// Whether the account is stored under the given username.
pub open spec fn spec_name_matches(a: Account, name: Seq<char>) -> bool {
    a.username@ == name
}

/// Looks a username up among the accounts: at most one account may carry
/// it.  A missing name is `None`; a duplicated one is a corrupt store.
pub fn get_user_by_name(accounts: &Vec<Account>, name: &str) -> (r: Result<
    Option<usize>,
    RegistryError,
>)
    ensures
        match r {
            Ok(found) => {
                match found {
                    Some(i) => {
                        &&& i < accounts@.len()
                        &&& spec_name_matches(accounts@[i as int], name@)
                        &&& forall|j: int|
                            0 <= j < accounts@.len() && j != i ==> !spec_name_matches(
                                #[trigger] accounts@[j],
                                name@,
                            )
                    },
                    None => forall|j: int|
                        0 <= j < accounts@.len() ==> !spec_name_matches(
                            #[trigger] accounts@[j],
                            name@,
                        ),
                }
            },
            Err(e) => {
                &&& e == RegistryError::Internal
                &&& exists|i: int, j: int|
                    0 <= i < j < accounts@.len() && spec_name_matches(#[trigger] accounts@[i], name@)
                        && spec_name_matches(#[trigger] accounts@[j], name@)
            },
        },
{
    let len = accounts.len();
    let mut found: Option<usize> = None;
    let mut i: usize = 0;
    while i < len
        invariant
            len == accounts@.len(),
            i <= len,
            match found {
                Some(f) => {
                    &&& f < i
                    &&& spec_name_matches(accounts@[f as int], name@)
                    &&& forall|j: int|
                        0 <= j < i && j != f ==> !spec_name_matches(#[trigger] accounts@[j], name@)
                },
                None => forall|j: int|
                    0 <= j < i ==> !spec_name_matches(#[trigger] accounts@[j], name@),
            },
        decreases len - i,
    {
        if crate::gitcmd::str_eq(accounts[i].username.as_str(), name) {
            match found {
                Some(_) => {
                    return Err(RegistryError::Internal);
                },
                None => {
                    found = Some(i);
                },
            }
        }
        i = i + 1;
    }
    Ok(found)
}

} // verus!
