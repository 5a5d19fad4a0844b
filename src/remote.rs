//! Plain records that describe remote directories and files to application
//! code, and the errors of the client that produces them.
use vstd::prelude::*;

verus! {

/// Failures of the remote client.
#[derive(Debug, Clone, PartialEq, Eq)]
pub enum FilenClientError {
    ConcurrencyError { msg: String },
    FilenClientError { msg: String },
    TypeConversionError { msg: String },
    IoError { msg: String },
}

/// The decrypted metadata of a remote directory.
pub struct DirectoryMeta {
    pub name: String,
    /// Creation time in seconds since the Unix epoch, if known.
    pub created: Option<i64>,
}

/// A remote directory as application code sees it.
pub struct Directory {
    pub uuid: String,
    pub name: String,
    pub parent_uuid: String,
    pub favorited: bool,
    pub color: Option<String>,
    pub created_at: Option<u64>,
}

/// A remote file as application code sees it.
pub struct RemoteFile {
    pub uuid: String,
    pub name: String,
    pub mime: String,
    pub last_modified: u64,
    pub created: u64,
    pub parent: String,
    pub size: u64,
    pub favorited: bool,
    pub region: String,
    pub bucket: String,
    pub chunks: u64,
}

/// The contents of a remote directory.
pub struct ListDir {
    pub directories: Vec<Directory>,
    pub files: Vec<RemoteFile>,
}

impl Directory {
    /// Builds the record of a remote directory from its fields and its
    /// metadata. Fails if the metadata could not be decrypted (`None`). A
    /// creation time is kept as the same 64 bits read unsigned.
    pub fn from_remote_dir(
        uuid: String,
        parent_uuid: String,
        favorited: bool,
        color: Option<String>,
        meta: Option<DirectoryMeta>,
    ) -> (r: Result<Directory, FilenClientError>)
        ensures
            meta is None <==> r is Err,
            r is Err ==> r->Err_0 is TypeConversionError,
            match (meta, r) {
                (Some(m), Ok(d)) => {
                    &&& d.uuid@ == uuid@
                    &&& d.name@ == m.name@
                    &&& d.parent_uuid@ == parent_uuid@
                    &&& d.favorited == favorited
                    &&& d.color == color
                    &&& d.created_at == match m.created {
                        Some(t) => Some(t as u64),
                        None => None,
                    }
                },
                _ => true,
            },
    {
        match meta {
            Some(m) => {
                let created_at = match m.created {
                    Some(t) => Some(t as u64),
                    None => None,
                };
                Ok(Directory { uuid, name: m.name, parent_uuid, favorited, color, created_at })
            },
            None => Err(
                FilenClientError::TypeConversionError {
                    msg: "Directory meta is not decrypted".to_owned(),
                },
            ),
        }
    }
}

} // verus!
