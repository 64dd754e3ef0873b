use vstd::prelude::*;

use crate::error::SshpassError;
use crate::keychain::joined_message;
use crate::password::Password;
use crate::text::{seq_views, str_eq};
use vstd::string::StringExecFns;

verus! {

/// An item of the 1Password item list (`op item list --format json`).
#[derive(Debug, Clone)]
pub struct OpItem {
    pub id: String,
    pub title: String,
    pub category: String,
}

/// One item in full (`op item get --format json`), with its fields.
#[derive(Debug, Clone)]
pub struct OpItemDetail {
    pub id: String,
    pub title: String,
    pub category: String,
    pub fields: Vec<OpField>,
}

/// A field of a 1Password item.
#[derive(Debug, Clone)]
pub struct OpField {
    pub id: String,
    pub field_type: String,
    pub value: Option<String>,
    pub label: Option<String>,
}

/// The titles of the listed items, in order.
pub open spec fn item_titles(items: Seq<OpItem>) -> Seq<Seq<char>> {
    items.map_values(|i: OpItem| i.title@)
}

/// The titles of the items of a parsed item list; a parse failure is
/// passed on.
pub fn parse_item_titles(items: Result<Vec<OpItem>, SshpassError>) -> (r: Result<
    Vec<String>,
    SshpassError,
>)
    ensures
        match items {
            Ok(list) => r matches Ok(titles) && seq_views(titles@) == item_titles(list@),
            Err(e) => r == Err::<Vec<String>, SshpassError>(e),
        },
{
    let list = match items {
        Ok(list) => list,
        Err(e) => {
            return Err(e);
        },
    };
    let mut titles: Vec<String> = Vec::new();
    let mut i: usize = 0;
    while i < list.len()
        invariant
            i <= list@.len(),
            seq_views(titles@) == item_titles(list@).take(i as int),
        decreases list@.len() - i,
    {
        let ghost before = titles@;
        let t = list[i].title.clone();
        titles.push(t);
        proof {
            assert(seq_views(titles@) =~= seq_views(before).push(t@));
            assert(item_titles(list@).take(i + 1) =~= item_titles(list@).take(i as int).push(
                list@[i as int].title@,
            ));
        }
        i = i + 1;
    }
    proof {
        assert(item_titles(list@).take(i as int) =~= item_titles(list@));
    }
    Ok(titles)
}

/// Whether a field holds a value and is the password field: by its id
/// (`password`), or else by its type (`CONCEALED`).
pub open spec fn field_matches(f: OpField, by_id: bool) -> bool {
    &&& f.value is Some
    &&& if by_id {
        f.id@ == "password"@
    } else {
        f.field_type@ == "CONCEALED"@
    }
}

/// The first field at or after `i` that matches.
pub open spec fn first_match_from(fields: Seq<OpField>, by_id: bool, i: int) -> Option<int>
    decreases fields.len() - i,
{
    if i < 0 || i >= fields.len() {
        None
    } else if field_matches(fields[i], by_id) {
        Some(i)
    } else {
        first_match_from(fields, by_id, i + 1)
    }
}

proof fn lemma_first_match(fields: Seq<OpField>, by_id: bool, i: int)
    requires
        first_match_from(fields, by_id, i) is Some,
    ensures
        i <= first_match_from(fields, by_id, i)->0 < fields.len(),
        field_matches(fields[first_match_from(fields, by_id, i)->0], by_id),
    decreases fields.len() - i,
{
    if !(i < 0 || i >= fields.len()) && !field_matches(fields[i], by_id) {
        lemma_first_match(fields, by_id, i + 1);
    }
}

/// The password an item holds: the value of the first field with id
/// `password`, else of the first `CONCEALED` field.
pub open spec fn item_password(fields: Seq<OpField>) -> Option<Seq<char>> {
    match first_match_from(fields, true, 0) {
        Some(i) => Some((fields[i].value->0)@),
        None => match first_match_from(fields, false, 0) {
            Some(i) => Some((fields[i].value->0)@),
            None => None,
        },
    }
}

/// The first matching field, searched by id or by type.
fn find_field(fields: &Vec<OpField>, by_id: bool) -> (r: Option<usize>)
    ensures
        match r {
            Some(i) => first_match_from(fields@, by_id, 0) == Some(i as int),
            None => first_match_from(fields@, by_id, 0) is None,
        },
{
    let mut i: usize = 0;
    while i < fields.len()
        invariant
            i <= fields@.len(),
            first_match_from(fields@, by_id, 0) == first_match_from(fields@, by_id, i as int),
        decreases fields@.len() - i,
    {
        let f = &fields[i];
        let named = if by_id {
            str_eq(f.id.as_str(), "password")
        } else {
            str_eq(f.field_type.as_str(), "CONCEALED")
        };
        if named && f.value.is_some() {
            return Some(i);
        }
        i = i + 1;
    }
    None
}

/// The message for an item with no password field.
pub open spec fn no_password_message(title: Seq<char>) -> Seq<char> {
    "no password field found in 1Password item '"@ + title + "'"@
}

/// The password of a parsed item: the value of its `password` field, else
/// of its first concealed field; an error names the item when it has
/// neither, and a parse failure is passed on.
pub fn parse_item_password(detail: Result<OpItemDetail, SshpassError>) -> (r: Result<
    Password,
    SshpassError,
>)
    ensures
        match detail {
            Ok(d) => match item_password(d.fields@) {
                Some(p) => r matches Ok(pw) && pw@ == p,
                None => r matches Err(SshpassError::KeychainAccess(m)) && m@ == no_password_message(
                    d.title@,
                ),
            },
            Err(e) => r == Err::<Password, SshpassError>(e),
        },
{
    let d = match detail {
        Ok(d) => d,
        Err(e) => {
            return Err(e);
        },
    };
    let found = match find_field(&d.fields, true) {
        Some(i) => Some(i),
        None => find_field(&d.fields, false),
    };
    proof {
        if first_match_from(d.fields@, true, 0) is Some {
            lemma_first_match(d.fields@, true, 0);
        } else if first_match_from(d.fields@, false, 0) is Some {
            lemma_first_match(d.fields@, false, 0);
        }
    }
    match found {
        Some(i) => {
            let value = match &d.fields[i].value {
                Some(v) => v.clone(),
                None => String::new(),
            };
            Ok(Password::new(value))
        },
        None => {
            let mut m = joined_message("no password field found in 1Password item '", d.title.as_str());
            m.append("'");
            Err(SshpassError::KeychainAccess(m))
        },
    }
}

} // verus!
