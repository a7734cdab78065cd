//! Package ownership: the comma-joined owner list, the check that gates
//! every write on a package, and the validated owner additions and
//! removals.

use vstd::prelude::*;

use crate::auth::Account;
use crate::auth::AccountWithId;
use crate::errors::RegistryError;
use crate::gitcmd::str_eq;
use crate::hashes::push_char;

verus! {

/// An owner as listed to clients: the account id, login and display name.
pub struct Owner {
    pub id: u32,
    pub login: String,
    pub name: String,
}

/// The owners of a package, as the owner listing returns them.
pub struct Owners {
    pub users: Vec<Owner>,
}

/// The usernames an owner mutation names.
pub struct Users {
    pub users: Vec<String>,
}

/// The identifier list with its first element prefixed by the given chars.
pub open spec fn spec_prepend_first(p: Seq<char>, items: Seq<Seq<char>>) -> Seq<Seq<char>>
    recommends
        items.len() > 0,
{
    seq![p + items[0]] + items.drop_first()
}

/// The comma-separated pieces of a string: an empty string is one empty
/// piece, and a comma closes the piece before it.
pub open spec fn spec_split_comma(s: Seq<char>) -> Seq<Seq<char>>
    decreases s.len(),
{
    if s.len() == 0 {
        seq![Seq::<char>::empty()]
    } else if s[0] == ',' {
        seq![Seq::<char>::empty()] + spec_split_comma(s.drop_first())
    } else {
        spec_prepend_first(seq![s[0]], spec_split_comma(s.drop_first()))
    }
}

proof fn lemma_split_comma_nonempty(s: Seq<char>)
    ensures
        spec_split_comma(s).len() > 0,
    decreases s.len(),
{
    if s.len() > 0 {
        lemma_split_comma_nonempty(s.drop_first());
    }
}

/// The pieces joined with commas between them.
pub open spec fn spec_join_comma(items: Seq<Seq<char>>) -> Seq<char>
    decreases items.len(),
{
    if items.len() == 0 {
        Seq::empty()
    } else if items.len() == 1 {
        items[0]
    } else {
        items[0] + ","@ + spec_join_comma(items.drop_first())
    }
}

proof fn lemma_join_comma_push(items: Seq<Seq<char>>, x: Seq<char>)
    requires
        items.len() >= 1,
    ensures
        spec_join_comma(items.push(x)) == spec_join_comma(items) + ","@ + x,
    decreases items.len(),
{
    let p = items.push(x);
    assert(p.len() == items.len() + 1);
    assert(spec_join_comma(p) == p[0] + ","@ + spec_join_comma(p.drop_first()));
    if items.len() == 1 {
        assert(p.drop_first() =~= seq![x]);
        assert(spec_join_comma(seq![x]) == x);
        assert(p[0] == items[0]);
        assert(spec_join_comma(p) =~= spec_join_comma(items) + ","@ + x);
    } else {
        lemma_join_comma_push(items.drop_first(), x);
        assert(p.drop_first() =~= items.drop_first().push(x));
        assert(p[0] == items[0]);
        assert(spec_join_comma(p) =~= spec_join_comma(items) + ","@ + x);
    }
}

/// Splits a stored comma-joined list into its pieces.
pub fn split_comma(s: &str) -> (r: Vec<String>)
    ensures
        r.deep_view() == spec_split_comma(s@),
{
    let mut done: Vec<String> = Vec::new();
    let mut cur = String::new();
    let len = s.unicode_len();
    let mut i: usize = 0;
    proof {
        assert(s@.skip(0) =~= s@);
        lemma_split_comma_nonempty(s@);
        assert(Seq::<char>::empty() + spec_split_comma(s@)[0] =~= spec_split_comma(s@)[0]);
        assert(done.deep_view() + spec_prepend_first(cur@, spec_split_comma(s@))
            =~= spec_prepend_first(Seq::<char>::empty(), spec_split_comma(s@)));
        assert(spec_prepend_first(Seq::<char>::empty(), spec_split_comma(s@)) =~= spec_split_comma(
            s@,
        ));
    }
    while i < len
        invariant
            len == s@.len(),
            i <= len,
            spec_split_comma(s@) =~= done.deep_view() + spec_prepend_first(
                cur@,
                spec_split_comma(s@.skip(i as int)),
            ),
        decreases len - i,
    {
        let c = s.get_char(i);
        let ghost suffix = s@.skip(i as int);
        let ghost rest = s@.skip(i + 1);
        proof {
            assert(suffix.len() > 0);
            assert(suffix[0] == c);
            assert(suffix.drop_first() =~= rest);
            lemma_split_comma_nonempty(rest);
        }
        if c == ',' {
            proof {
                assert(cur@ + spec_split_comma(suffix)[0] =~= cur@);
                assert(spec_prepend_first(cur@, spec_split_comma(suffix)) =~= seq![cur@]
                    + spec_prepend_first(Seq::<char>::empty(), spec_split_comma(rest)));
                assert(Seq::<char>::empty() + spec_split_comma(rest)[0] =~= spec_split_comma(
                    rest,
                )[0]);
                assert(spec_prepend_first(Seq::<char>::empty(), spec_split_comma(rest))
                    =~= spec_split_comma(rest));
            }
            let ghost old_done = done.deep_view();
            done.push(cur);
            proof {
                assert(done.deep_view() =~~= old_done.push(cur@));
            }
            cur = String::new();
        } else {
            proof {
                assert(cur@ + (seq![c] + spec_split_comma(rest)[0]) =~= cur@.push(c)
                    + spec_split_comma(rest)[0]);
                assert(spec_prepend_first(cur@, spec_split_comma(suffix)) =~= spec_prepend_first(
                    cur@.push(c),
                    spec_split_comma(rest),
                ));
            }
            push_char(&mut cur, c);
        }
        i = i + 1;
    }
    proof {
        assert(s@.skip(len as int) =~= Seq::<char>::empty());
        assert(cur@ + Seq::<char>::empty() =~= cur@);
        assert(spec_prepend_first(cur@, spec_split_comma(Seq::<char>::empty())) =~= seq![cur@]);
    }
    let ghost old_done = done.deep_view();
    done.push(cur);
    proof {
        assert(done.deep_view() =~~= old_done.push(cur@));
        assert(done.deep_view() =~= spec_split_comma(s@));
    }
    done
}

/// Joins pieces into the stored comma-separated form.
pub fn join_comma(items: &Vec<String>) -> (r: String)
    ensures
        r@ == spec_join_comma(items.deep_view()),
{
    let mut r = String::new();
    let len = items.len();
    let mut i: usize = 0;
    while i < len
        invariant
            len == items@.len(),
            i <= len,
            r@ == spec_join_comma(items.deep_view().take(i as int)),
        decreases len - i,
    {
        if i > 0 {
            r.append(",");
        }
        r.append(items[i].as_str());
        proof {
            let dv = items.deep_view();
            assert(dv.take(i + 1) =~= dv.take(i as int).push(dv[i as int]));
            if i > 0 {
                lemma_join_comma_push(dv.take(i as int), dv[i as int]);
            } else {
                assert(dv.take(1) =~= seq![dv[0]]);
            }
            assert(dv[i as int] == items@[i as int]@);
        }
        i = i + 1;
    }
    proof {
        assert(items.deep_view().take(len as int) =~= items.deep_view());
    }
    r
}

/// Whether the given name stands among the items.
pub open spec fn spec_contains_str(items: Seq<Seq<char>>, x: Seq<char>) -> bool {
    exists|k: int| 0 <= k < items.len() && items[k] == x
}

/// Whether the list holds the given name.
pub fn contains_str(items: &Vec<String>, x: &str) -> (r: bool)
    ensures
        r == spec_contains_str(items.deep_view(), x@),
{
    let len = items.len();
    let mut i: usize = 0;
    while i < len
        invariant
            len == items@.len(),
            i <= len,
            forall|k: int| 0 <= k < i ==> items.deep_view()[k] != x@,
        decreases len - i,
    {
        if str_eq(items[i].as_str(), x) {
            proof {
                assert(items.deep_view()[i as int] == x@);
            }
            return true;
        }
        i = i + 1;
    }
    false
}

/// Checks that the account may modify the package: a package without an
/// owner list came from the upstream cache and is refused, and so is an
/// account that is not among the owners.  Success hands back the username
/// and the exploded owner list.
pub fn check_owner_impl(account: &Account, owners: Option<String>, crate_name: &str) -> (r: Result<
    (String, Vec<String>),
    RegistryError,
>)
    ensures
        match r {
            Ok((u, list)) => {
                &&& owners matches Some(o) && list.deep_view() == spec_split_comma(o@)
                &&& spec_contains_str(list.deep_view(), account.username@)
                &&& u@ == account.username@
            },
            Err(e) => {
                &&& e == RegistryError::Forbidden
                &&& match owners {
                    Some(o) => !spec_contains_str(spec_split_comma(o@), account.username@),
                    None => true,
                }
            },
        },
{
    let owners = match owners {
        Some(o) => o,
        None => {
            return Err(RegistryError::Forbidden);
        },
    };
    let parts = split_comma(owners.as_str());
    if contains_str(&parts, account.username.as_str()) {
        Ok((account.username.clone(), parts))
    } else {
        Err(RegistryError::Forbidden)
    }
}

/// Validates an owner addition: every added user must exist in the account
/// store (the caller checked each, in order) and must not already be an
/// owner.  Success is the old list with the new users appended.
pub fn add_owners(
    old_owners: Vec<String>,
    new_owners: Vec<String>,
    user_exists: &Vec<bool>,
) -> (r: Result<Vec<String>, RegistryError>)
    requires
        user_exists@.len() == new_owners@.len(),
    ensures
        match r {
            Ok(list) => {
                &&& forall|k: int| 0 <= k < user_exists@.len() ==> user_exists@[k]
                &&& forall|k: int|
                    0 <= k < old_owners@.len() ==> !spec_contains_str(
                        new_owners.deep_view(),
                        old_owners.deep_view()[k],
                    )
                &&& list.deep_view() == old_owners.deep_view() + new_owners.deep_view()
            },
            Err(e) => {
                &&& e == RegistryError::InvalidRequest ==> exists|k: int|
                    0 <= k < user_exists@.len() && !user_exists@[k]
                &&& e == RegistryError::Conflict ==> {
                    &&& forall|k: int| 0 <= k < user_exists@.len() ==> user_exists@[k]
                    &&& exists|k: int|
                        0 <= k < old_owners@.len() && spec_contains_str(
                            new_owners.deep_view(),
                            old_owners.deep_view()[k],
                        )
                }
                &&& (e == RegistryError::InvalidRequest || e == RegistryError::Conflict)
            },
        },
{
    let mut i: usize = 0;
    let n = user_exists.len();
    while i < n
        invariant
            n == user_exists@.len(),
            i <= n,
            forall|k: int| 0 <= k < i ==> user_exists@[k],
        decreases n - i,
    {
        if !user_exists[i] {
            return Err(RegistryError::InvalidRequest);
        }
        i = i + 1;
    }
    let mut j: usize = 0;
    let m = old_owners.len();
    while j < m
        invariant
            m == old_owners@.len(),
            n == user_exists@.len(),
            forall|k: int| 0 <= k < n ==> user_exists@[k],
            j <= m,
            forall|k: int|
                0 <= k < j ==> !spec_contains_str(
                    new_owners.deep_view(),
                    old_owners.deep_view()[k],
                ),
        decreases m - j,
    {
        if contains_str(&new_owners, old_owners[j].as_str()) {
            proof {
                assert(old_owners.deep_view()[j as int] == old_owners@[j as int]@);
            }
            return Err(RegistryError::Conflict);
        }
        j = j + 1;
    }
    let mut list = old_owners;
    let ghost old_list = list.deep_view();
    let mut adds = new_owners;
    let ghost new_list = adds.deep_view();
    list.append(&mut adds);
    proof {
        assert(list.deep_view() =~~= old_list + new_list);
    }
    Ok(list)
}

/// The old owners without those being removed, in their old order.
pub open spec fn spec_remove_all(olds: Seq<Seq<char>>, removed: Seq<Seq<char>>) -> Seq<Seq<char>>
    decreases olds.len(),
{
    if olds.len() == 0 {
        Seq::empty()
    } else if spec_contains_str(removed, olds[0]) {
        spec_remove_all(olds.drop_first(), removed)
    } else {
        seq![olds[0]] + spec_remove_all(olds.drop_first(), removed)
    }
}

/// Validates an owner removal: every removed user must stand in the old
/// list.  Success is the old list with the removed users taken out.
pub fn remove_owners(old_owners: Vec<String>, remove: Vec<String>) -> (r: Result<
    Vec<String>,
    RegistryError,
>)
    ensures
        match r {
            Ok(list) => {
                &&& forall|k: int|
                    0 <= k < remove@.len() ==> spec_contains_str(
                        old_owners.deep_view(),
                        remove.deep_view()[k],
                    )
                &&& list.deep_view() == spec_remove_all(old_owners.deep_view(), remove.deep_view())
            },
            Err(e) => {
                &&& e == RegistryError::InvalidRequest
                &&& exists|k: int|
                    0 <= k < remove@.len() && !spec_contains_str(
                        old_owners.deep_view(),
                        remove.deep_view()[k],
                    )
            },
        },
{
    let n = remove.len();
    let mut i: usize = 0;
    while i < n
        invariant
            n == remove@.len(),
            i <= n,
            forall|k: int|
                0 <= k < i ==> spec_contains_str(old_owners.deep_view(), remove.deep_view()[k]),
        decreases n - i,
    {
        if !contains_str(&old_owners, remove[i].as_str()) {
            proof {
                assert(remove.deep_view()[i as int] == remove@[i as int]@);
            }
            return Err(RegistryError::InvalidRequest);
        }
        proof {
            assert(remove.deep_view()[i as int] == remove@[i as int]@);
        }
        i = i + 1;
    }
    let ghost olds = old_owners.deep_view();
    let mut list: Vec<String> = Vec::new();
    let m = old_owners.len();
    let mut j: usize = 0;
    proof {
        assert(olds.skip(0) =~= olds);
    }
    let mut source = old_owners;
    while j < m
        invariant
            m == source@.len(),
            j <= m,
            olds == source.deep_view(),
            spec_remove_all(olds, remove.deep_view()) =~= list.deep_view() + spec_remove_all(
                olds.skip(j as int),
                remove.deep_view(),
            ),
        decreases m - j,
    {
        let ghost suffix = olds.skip(j as int);
        proof {
            assert(suffix.len() > 0);
            assert(suffix[0] == olds[j as int]);
            assert(suffix.drop_first() =~= olds.skip(j + 1));
        }
        if contains_str(&remove, source[j].as_str()) {
            proof {
                assert(source.deep_view()[j as int] == source@[j as int]@);
            }
        } else {
            proof {
                assert(source.deep_view()[j as int] == source@[j as int]@);
            }
            let ghost old_list = list.deep_view();
            let item = source[j].clone();
            list.push(item);
            proof {
                assert(list.deep_view() =~~= old_list.push(olds[j as int]));
                assert(old_list + (seq![olds[j as int]] + spec_remove_all(
                    olds.skip(j + 1),
                    remove.deep_view(),
                )) =~= list.deep_view() + spec_remove_all(olds.skip(j + 1), remove.deep_view()));
            }
        }
        j = j + 1;
    }
    proof {
        assert(olds.skip(m as int) =~= Seq::<Seq<char>>::empty());
        assert(list.deep_view() + Seq::<Seq<char>>::empty() =~= list.deep_view());
    }
    Ok(list)
}

/// Shapes account rows into the owner listing: id, login and display name,
/// in row order.
pub fn get_owners(records: Vec<AccountWithId>) -> (r: Owners)
    ensures
        r.users@.len() == records@.len(),
        forall|i: int|
            0 <= i < records@.len() ==> {
                &&& (#[trigger] r.users@[i]).id == records@[i].id as u32
                &&& r.users@[i].login == records@[i].username
                &&& r.users@[i].name == records@[i].display_name
            },
{
    let ghost all = records@;
    let mut rows = records;
    let mut users: Vec<Owner> = Vec::new();
    while rows.len() > 0
        invariant
            users@.len() + rows@.len() == all.len(),
            rows@ =~= all.skip(users@.len() as int),
            forall|i: int|
                0 <= i < users@.len() ==> {
                    &&& (#[trigger] users@[i]).id == all[i].id as u32
                    &&& users@[i].login == all[i].username
                    &&& users@[i].name == all[i].display_name
                },
        decreases rows@.len(),
    {
        let a = rows.remove(0);
        proof {
            assert(a == all[users@.len() as int]);
        }
        users.push(
            Owner {
                id: #[verifier::truncate] (a.id as u32),
                login: a.username,
                name: a.display_name,
            },
        );
        proof {
            assert(rows@ =~= all.skip(users@.len() as int));
        }
    }
    Owners { users }
}

} // verus!
