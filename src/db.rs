//! What the engine needs from the store of items, occurrences and configs:
//! stored records, the scopes configs are stored at, batched updates and the
//! store's errors.
use std::collections::HashMap;
use vstd::prelude::*;
use crate::types::{Config, Item, ItemType, Occ, OccDate};

pub mod fromdb;
pub mod todb;

verus! {

/// [`Item`] that has been stored in the database.
#[derive(Clone, Debug, PartialEq, Eq, Hash)]
pub struct StoredItem {
    pub id: String,
    pub created: OccDate,
    pub updated: OccDate,
    pub item: Item,
}

/// [`Occ`] that has been stored in the database.
#[derive(Clone, Debug, PartialEq, Eq, Hash)]
pub struct StoredOcc {
    pub id: String,
    pub occ: Occ,
}

/// The target of a [`Config`], also serving as a unique identifier.
///
/// Options are in order of precedence when applying to an occurrence: later
/// options take precedence over earlier options.
#[derive(Clone, Debug, PartialEq, Eq, Hash)]
pub enum ConfigId {
    /// Applies to all occurrences.
    All,
    /// Applies to all occurrences of all items of this type.
    Type(ItemType),
    /// Applies to all occurrences of all items with this category.
    Category(String),
    /// Applies to all occurrences of the item with this `id`.
    Item { id: String },
    /// Applies to the occurrence with this `id`.
    Occ { id: String },
}

/// [`ConfigId`] with its strings as character sequences.
pub enum ConfigIdView {
    All,
    Type(ItemType),
    Category(Seq<char>),
    Item(Seq<char>),
    Occ(Seq<char>),
}

impl View for ConfigId {
    type V = ConfigIdView;

    open spec fn view(&self) -> ConfigIdView {
        match self {
            ConfigId::All => ConfigIdView::All,
            ConfigId::Type(t) => ConfigIdView::Type(*t),
            ConfigId::Category(c) => ConfigIdView::Category(c@),
            ConfigId::Item { id } => ConfigIdView::Item(id@),
            ConfigId::Occ { id } => ConfigIdView::Occ(id@),
        }
    }
}

impl ConfigId {
    /// Whether two scopes are the same.
    pub fn same(&self, other: &ConfigId) -> (r: bool)
        ensures
            r == (self@ == other@),
    {
        match self {
            ConfigId::All => match other {
                ConfigId::All => true,
                _ => false,
            },
            ConfigId::Type(a) => match other {
                ConfigId::Type(b) => *a == *b,
                _ => false,
            },
            ConfigId::Category(a) => match other {
                ConfigId::Category(b) => *a == *b,
                _ => false,
            },
            ConfigId::Item { id: a } => match other {
                ConfigId::Item { id: b } => *a == *b,
                _ => false,
            },
            ConfigId::Occ { id: a } => match other {
                ConfigId::Occ { id: b } => *a == *b,
                _ => false,
            },
        }
    }

    /// A copy of this scope.
    pub fn copy(&self) -> (r: ConfigId)
        ensures
            r@ == self@,
    {
        match self {
            ConfigId::All => ConfigId::All,
            ConfigId::Type(t) => ConfigId::Type(*t),
            ConfigId::Category(c) => ConfigId::Category(c.clone()),
            ConfigId::Item { id } => ConfigId::Item { id: id.clone() },
            ConfigId::Occ { id } => ConfigId::Occ { id: id.clone() },
        }
    }
}

/// [`Config`] that has been stored in the database.
#[derive(Clone, Debug, PartialEq, Eq, Hash)]
pub struct StoredConfig {
    pub id: ConfigId,
    pub config: Config,
}

/// Errors of the store and of the engine's use of it.
#[derive(Clone, Debug, PartialEq, Eq, Hash)]
pub enum Error {
    /// A lookup by id found nothing where a single result was required.
    NotFound(String),
    /// An external id could not be read as a stored id.
    InvalidId(String),
    /// A token was used in a batch without being created earlier in it.
    InvalidToken(IdToken),
    /// A stored value could not be encoded or decoded.
    Codec(String),
    /// The store reported a failure.
    StoreIo(String),
    /// The store could not be initialised.
    SchemaInit(String),
}

/// The core `Result` type used by database functions.
pub type DbResult<T> = Result<T, Error>;

/// Temporary ID referring to objects that are yet to be written to the
/// database.
pub type IdToken = u64;

#[derive(Clone, Copy, Debug, PartialEq, Eq, Hash, Structural)]
pub enum SortDirection {
    Asc,
    Desc,
}

/// Reference to an object that may or may not have been written to the
/// database already.
#[derive(Clone, Debug, PartialEq, Eq, Hash)]
pub enum UpdateId {
    Id(String),
    Token(IdToken),
}

/// Describes an operation that modifies the database.
///
/// Functions are helpers for creating enum values.
#[derive(Clone, Debug, PartialEq, Eq, Hash)]
pub enum DbUpdate {
    CreateItem { id_token: IdToken, item: Item },
    UpdateItem(StoredItem),
    DeleteItem { id: String },
    /// [`Config`] identifiers are known before writing, so this is a
    /// create-or-update operation.
    SetConfig(StoredConfig),
    DeleteConfig { id: ConfigId },
    CreateOcc { id_token: IdToken, item_id: UpdateId, occ: Occ },
    UpdateOcc(StoredOcc),
    DeleteOcc { id: String },
}

impl DbUpdate {
    pub fn create_item(id_token: IdToken, item: Item) -> (r: DbUpdate)
        ensures
            r == (DbUpdate::CreateItem { id_token, item }),
    {
        DbUpdate::CreateItem { id_token, item }
    }

    pub fn update_item(item: StoredItem) -> (r: DbUpdate)
        ensures
            r == DbUpdate::UpdateItem(item),
    {
        DbUpdate::UpdateItem(item)
    }

    pub fn delete_item(id: String) -> (r: DbUpdate)
        ensures
            r == (DbUpdate::DeleteItem { id }),
    {
        DbUpdate::DeleteItem { id }
    }

    /// [`Config`] identifiers are known before writing, so this is a
    /// create-or-update operation.
    pub fn set_config(config: StoredConfig) -> (r: DbUpdate)
        ensures
            r == DbUpdate::SetConfig(config),
    {
        DbUpdate::SetConfig(config)
    }

    pub fn delete_config(id: ConfigId) -> (r: DbUpdate)
        ensures
            r == (DbUpdate::DeleteConfig { id }),
    {
        DbUpdate::DeleteConfig { id }
    }

    pub fn create_occ(id_token: IdToken, item_id: UpdateId, occ: Occ) -> (r: DbUpdate)
        ensures
            r == (DbUpdate::CreateOcc { id_token, item_id, occ }),
    {
        DbUpdate::CreateOcc { id_token, item_id, occ }
    }

    pub fn update_occ(occ: StoredOcc) -> (r: DbUpdate)
        ensures
            r == DbUpdate::UpdateOcc(occ),
    {
        DbUpdate::UpdateOcc(occ)
    }

    pub fn delete_occ(id: String) -> (r: DbUpdate)
        ensures
            r == (DbUpdate::DeleteOcc { id }),
    {
        DbUpdate::DeleteOcc { id }
    }
}

/// Turn a token or ID into an ID, by mapping any token via `ids_map`.
///
/// A token fails with [`Error::InvalidToken`] unless `ids_map` holds it, that
/// is unless an earlier update of the same write created it.
pub fn resolve_update_id(ids_map: &HashMap<IdToken, String>, id: &UpdateId) -> (r: DbResult<
    String,
>)
    ensures
        match id {
            UpdateId::Id(s) => r matches Ok(v) && v@ == s@,
            UpdateId::Token(t) => if ids_map@.contains_key(*t) {
                r matches Ok(v) && v@ == ids_map@[*t]@
            } else {
                r == Err::<String, Error>(Error::InvalidToken(*t))
            },
        },
{
    match id {
        UpdateId::Id(s) => Ok(s.clone()),
        UpdateId::Token(token) => match ids_map.get(token) {
            Some(s) => Ok(s.clone()),
            None => Err(Error::InvalidToken(*token)),
        },
    }
}

/// Extract the only result from the results of a lookup by ID.
///
/// An empty result fails with [`Error::NotFound`] naming `id`; an error is
/// passed on.
pub fn get_single_helper<T>(id: &str, r: DbResult<Vec<T>>) -> (res: DbResult<T>)
    ensures
        match r {
            Ok(v) => if v@.len() > 0 {
                res == Ok::<T, Error>(v@[0])
            } else {
                res matches Err(Error::NotFound(s)) && s@ == id@
            },
            Err(e) => res == Err::<T, Error>(e),
        },
{
    match r {
        Ok(mut v) => {
            if v.len() > 0 {
                Ok(v.swap_remove(0))
            } else {
                Err(Error::NotFound(id.to_string()))
            }
        },
        Err(e) => Err(e),
    }
}

} // verus!
