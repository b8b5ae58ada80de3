use crate::error::Error;
use crate::types::database_ids::{DatabaseIdTrait, ItemId, ObjectId, RepositoryId, UserId};
use crate::types::enc_path::EncPath;
use crate::types::enc_string::EncString;
use vstd::prelude::*;

verus! {

/// What a file item holds beside the common fields.
#[derive(Debug)]
pub struct FileData {
    pub size: i64,
    pub mimetype: EncString,
    pub timestamp: i64,
    pub object: ObjectId,
}

/// The mathematical value of a [`FileData`].
pub ghost struct FileDataView {
    pub size: i64,
    pub mimetype: Seq<char>,
    pub timestamp: i64,
    pub object: ObjectId,
}

impl View for FileData {
    type V = FileDataView;

    open spec fn view(&self) -> FileDataView {
        FileDataView {
            size: self.size,
            mimetype: self.mimetype@,
            timestamp: self.timestamp,
            object: self.object,
        }
    }
}

impl Clone for FileData {
    fn clone(&self) -> (r: Self)
        ensures
            r@ == self@,
    {
        FileData {
            size: self.size,
            mimetype: self.mimetype.clone(),
            timestamp: self.timestamp,
            object: self.object,
        }
    }
}

impl Default for FileData {
    fn default() -> (r: Self)
        ensures
            r@ == (FileDataView {
                size: 0,
                mimetype: Seq::empty(),
                timestamp: 0,
                object: ObjectId(0),
            }),
    {
        FileData { size: 0, mimetype: EncString::default(), timestamp: 0, object: ObjectId(0) }
    }
}

/// What a directory item holds beside the common fields. The number of
/// items and the content size are computed when the item is read.
#[derive(Clone, Copy, Debug, PartialEq, Eq, Structural)]
pub struct DirectoryData {
    pub open_upload: bool,
    pub num_items: i64,
    pub content_size: i64,
}

impl Default for DirectoryData {
    fn default() -> (r: Self)
        ensures
            r == (DirectoryData { open_upload: false, num_items: 0, content_size: 0 }),
    {
        DirectoryData { open_upload: false, num_items: 0, content_size: 0 }
    }
}

/// A file or a directory of a repository's tree.
#[derive(Debug)]
pub struct Item {
    id: ItemId,
    pub repository: RepositoryId,
    pub owner: UserId,
    pub name: EncString,
    pub description: Option<EncString>,
    pub parent_item: Option<ItemId>,
    pub absolute_path: EncPath,
    pub in_trash: bool,
    pub directory: Option<DirectoryData>,
    pub file: Option<FileData>,
}

/// The mathematical value of an [`Item`].
pub ghost struct ItemView {
    pub id: ItemId,
    pub repository: RepositoryId,
    pub owner: UserId,
    pub name: Seq<char>,
    pub description: Option<Seq<char>>,
    pub parent_item: Option<ItemId>,
    pub absolute_path: Seq<Seq<char>>,
    pub in_trash: bool,
    pub directory: Option<DirectoryData>,
    pub file: Option<FileDataView>,
}

pub open spec fn option_text(text: Option<EncString>) -> Option<Seq<char>> {
    match text {
        Some(t) => Some(t@),
        None => None,
    }
}

pub open spec fn option_file(file: Option<FileData>) -> Option<FileDataView> {
    match file {
        Some(f) => Some(f@),
        None => None,
    }
}

impl View for Item {
    type V = ItemView;

    closed spec fn view(&self) -> ItemView {
        ItemView {
            id: self.id,
            repository: self.repository,
            owner: self.owner,
            name: self.name@,
            description: option_text(self.description),
            parent_item: self.parent_item,
            absolute_path: self.absolute_path@,
            in_trash: self.in_trash,
            directory: self.directory,
            file: option_file(self.file),
        }
    }
}

impl ItemView {
    /// The item is a file or a directory, and not both.
    pub open spec fn has_one_kind(&self) -> bool {
        self.file is Some <==> self.directory is None
    }

    pub open spec fn is_file(&self) -> bool {
        self.file is Some
    }

    /// The row that stands for the item under the key `id`.
    pub open spec fn stored_as(&self, id: ItemId) -> ItemView {
        ItemView {
            id,
            directory: if self.file is Some {
                None
            } else {
                self.directory
            },
            ..*self
        }
    }
}

/// Copies an optional encoded text.
pub fn clone_option_text(text: &Option<EncString>) -> (r: Option<EncString>)
    ensures
        option_text(r) == option_text(*text),
{
    match text {
        Some(t) => Some(t.clone()),
        None => None,
    }
}

impl Item {
    /// Gives the item its key. Fails where it already has one.
    pub fn set_id(&mut self, id: ItemId) -> (r: Result<(), Error>)
        ensures
            match r {
                Ok(_) => !old(self)@.id.spec_is_valid() && final(self)@ == (ItemView {
                    id,
                    ..old(self)@
                }),
                Err(e) => e == Error::InvalidArgument && old(self)@.id.spec_is_valid()
                    && final(self)@ == old(self)@,
            },
    {
        if self.id.is_valid() {
            Err(Error::InvalidArgument)
        } else {
            self.id = id;
            Ok(())
        }
    }

    /// Takes the key off the item and returns it.
    pub fn clear_id(&mut self) -> (r: ItemId)
        ensures
            r == old(self)@.id,
            final(self)@ == (ItemView { id: ItemId(0), ..old(self)@ }),
    {
        let old_id = self.id;
        self.id = ItemId(0);
        old_id
    }

    pub fn id(&self) -> (r: &ItemId)
        ensures
            *r == self@.id,
    {
        &self.id
    }

    pub fn repository(&self) -> (r: RepositoryId)
        ensures
            r == self@.repository,
    {
        self.repository
    }

    pub fn owner(&self) -> (r: UserId)
        ensures
            r == self@.owner,
    {
        self.owner
    }

    pub fn name(&self) -> (r: &EncString)
        ensures
            r@ == self@.name,
    {
        &self.name
    }

    pub fn parent_item(&self) -> (r: Option<ItemId>)
        ensures
            r == self@.parent_item,
    {
        self.parent_item
    }

    pub fn absolute_path(&self) -> (r: &EncPath)
        ensures
            r@ == self@.absolute_path,
    {
        &self.absolute_path
    }

    pub fn in_trash(&self) -> (r: bool)
        ensures
            r == self@.in_trash,
    {
        self.in_trash
    }

    pub fn directory(&self) -> (r: Option<DirectoryData>)
        ensures
            r == self@.directory,
    {
        self.directory
    }

    pub fn file(&self) -> (r: Option<&FileData>)
        ensures
            match r {
                Some(f) => self@.file == Some(f@),
                None => self@.file is None,
            },
    {
        match &self.file {
            Some(f) => Some(f),
            None => None,
        }
    }

    /// An item with the given fields and no key.
    pub fn new(
        repository: RepositoryId,
        owner: UserId,
        name: EncString,
        description: Option<EncString>,
        parent_item: Option<ItemId>,
        in_trash: bool,
        directory: Option<DirectoryData>,
        file: Option<FileData>,
    ) -> (r: Self)
        ensures
            r@ == (ItemView {
                id: ItemId(0),
                repository,
                owner,
                name: name@,
                description: option_text(description),
                parent_item,
                absolute_path: Seq::empty(),
                in_trash,
                directory,
                file: option_file(file),
            }),
    {
        Item {
            id: ItemId(0),
            repository,
            owner,
            name,
            description,
            parent_item,
            absolute_path: EncPath::default(),
            in_trash,
            directory,
            file,
        }
    }

    /// The item as a reader sees it: a copy with the computed fields put in.
    pub fn with_computed(
        &self,
        absolute_path: EncPath,
        directory: Option<DirectoryData>,
    ) -> (r: Self)
        ensures
            r@ == (ItemView { absolute_path: absolute_path@, directory, ..self@ }),
    {
        Item {
            id: self.id,
            repository: self.repository,
            owner: self.owner,
            name: self.name.clone(),
            description: clone_option_text(&self.description),
            parent_item: self.parent_item,
            absolute_path,
            in_trash: self.in_trash,
            directory,
            file: match &self.file {
                Some(f) => Some(f.clone()),
                None => None,
            },
        }
    }

    /// A copy of the item, in or out of the trash.
    pub fn with_trash(&self, in_trash: bool) -> (r: Self)
        ensures
            r@ == (ItemView { in_trash, ..self@ }),
    {
        Item {
            id: self.id,
            repository: self.repository,
            owner: self.owner,
            name: self.name.clone(),
            description: clone_option_text(&self.description),
            parent_item: self.parent_item,
            absolute_path: self.absolute_path.clone(),
            in_trash,
            directory: self.directory,
            file: match &self.file {
                Some(f) => Some(f.clone()),
                None => None,
            },
        }
    }

    /// A copy of the item in another repository.
    pub fn in_repository(&self, repository: RepositoryId) -> (r: Self)
        ensures
            r@ == (ItemView { repository, ..self@ }),
    {
        Item {
            id: self.id,
            repository,
            owner: self.owner,
            name: self.name.clone(),
            description: clone_option_text(&self.description),
            parent_item: self.parent_item,
            absolute_path: self.absolute_path.clone(),
            in_trash: self.in_trash,
            directory: self.directory,
            file: match &self.file {
                Some(f) => Some(f.clone()),
                None => None,
            },
        }
    }

    /// The item as it is stored under the key `id`: a file keeps no
    /// directory data.
    pub fn stored_as(&self, id: ItemId) -> (r: Self)
        ensures
            r@ == self@.stored_as(id),
    {
        Item {
            id,
            repository: self.repository,
            owner: self.owner,
            name: self.name.clone(),
            description: clone_option_text(&self.description),
            parent_item: self.parent_item,
            absolute_path: self.absolute_path.clone(),
            in_trash: self.in_trash,
            directory: if self.file.is_some() {
                None
            } else {
                self.directory
            },
            file: match &self.file {
                Some(f) => Some(f.clone()),
                None => None,
            },
        }
    }
}

impl Clone for Item {
    fn clone(&self) -> (r: Self)
        ensures
            r@ == self@,
    {
        Item {
            id: self.id,
            repository: self.repository,
            owner: self.owner,
            name: self.name.clone(),
            description: clone_option_text(&self.description),
            parent_item: self.parent_item,
            absolute_path: self.absolute_path.clone(),
            in_trash: self.in_trash,
            directory: self.directory,
            file: match &self.file {
                Some(f) => Some(f.clone()),
                None => None,
            },
        }
    }
}

impl Default for Item {
    fn default() -> (r: Self)
        ensures
            r@ == (ItemView {
                id: ItemId(0),
                repository: RepositoryId(0),
                owner: UserId(0),
                name: Seq::empty(),
                description: None,
                parent_item: None,
                absolute_path: Seq::empty(),
                in_trash: false,
                directory: None,
                file: None,
            }),
    {
        Item {
            id: ItemId(0),
            repository: RepositoryId(0),
            owner: UserId(0),
            name: EncString::default(),
            description: None,
            parent_item: None,
            absolute_path: EncPath::default(),
            in_trash: false,
            directory: None,
            file: None,
        }
    }
}

/// What a request to create a directory names.
#[derive(Debug)]
pub struct CreateDirectoryParams {
    pub name: EncString,
    pub repository: RepositoryId,
    pub parent_item: Option<ItemId>,
}

/// An item laid out flat, as a row of the item view or as a message on
/// the wire: the common fields, and the fields of either kind where they
/// are there.
#[derive(Debug)]
pub struct ItemRecord {
    pub id: ItemId,
    pub repository: RepositoryId,
    pub owner: UserId,
    pub name: EncString,
    pub description: Option<EncString>,
    pub parent_item: Option<ItemId>,
    pub absolute_path: EncPath,
    pub in_trash: bool,
    pub is_regular_file: Option<bool>,
    pub size: Option<i64>,
    pub mimetype: Option<EncString>,
    pub timestamp: Option<i64>,
    pub object: Option<ObjectId>,
    pub open_upload: Option<bool>,
    pub num_items: Option<i64>,
    pub content_size: Option<i64>,
}

/// The mathematical value of an [`ItemRecord`].
pub ghost struct ItemRecordView {
    pub id: ItemId,
    pub repository: RepositoryId,
    pub owner: UserId,
    pub name: Seq<char>,
    pub description: Option<Seq<char>>,
    pub parent_item: Option<ItemId>,
    pub absolute_path: Seq<Seq<char>>,
    pub in_trash: bool,
    pub is_regular_file: Option<bool>,
    pub size: Option<i64>,
    pub mimetype: Option<Seq<char>>,
    pub timestamp: Option<i64>,
    pub object: Option<ObjectId>,
    pub open_upload: Option<bool>,
    pub num_items: Option<i64>,
    pub content_size: Option<i64>,
}

impl View for ItemRecord {
    type V = ItemRecordView;

    open spec fn view(&self) -> ItemRecordView {
        ItemRecordView {
            id: self.id,
            repository: self.repository,
            owner: self.owner,
            name: self.name@,
            description: option_text(self.description),
            parent_item: self.parent_item,
            absolute_path: self.absolute_path@,
            in_trash: self.in_trash,
            is_regular_file: self.is_regular_file,
            size: self.size,
            mimetype: option_text(self.mimetype),
            timestamp: self.timestamp,
            object: self.object,
            open_upload: self.open_upload,
            num_items: self.num_items,
            content_size: self.content_size,
        }
    }
}

impl ItemRecordView {
    /// The common fields of the record, as an item of no kind.
    pub open spec fn common(&self) -> ItemView {
        ItemView {
            id: self.id,
            repository: self.repository,
            owner: self.owner,
            name: self.name,
            description: self.description,
            parent_item: self.parent_item,
            absolute_path: self.absolute_path,
            in_trash: self.in_trash,
            directory: None,
            file: None,
        }
    }

    /// The row has all columns of a file.
    pub open spec fn is_file_row(&self) -> bool {
        self.size is Some && self.mimetype is Some && self.timestamp is Some && self.object
            is Some
    }

    /// The row has all columns of a directory.
    pub open spec fn is_directory_row(&self) -> bool {
        self.open_upload is Some && self.num_items is Some && self.content_size is Some
    }

    /// The item that a row of the item view stands for. The columns that
    /// are there tell the kind: a row with a size is a file, and a row
    /// without one and with the upload flag is a directory. There is no
    /// item where a column of the kind is missing, nor where the row has
    /// the columns of neither kind: every item is a file or a directory.
    pub open spec fn row_item(&self) -> Option<ItemView> {
        if self.size is Some {
            if self.is_file_row() {
                Some(
                    ItemView {
                        file: Some(
                            FileDataView {
                                size: self.size->0,
                                mimetype: self.mimetype->0,
                                timestamp: self.timestamp->0,
                                object: self.object->0,
                            },
                        ),
                        ..self.common()
                    },
                )
            } else {
                None
            }
        } else if self.open_upload is Some {
            if self.is_directory_row() {
                Some(
                    ItemView {
                        directory: Some(
                            DirectoryData {
                                open_upload: self.open_upload->0,
                                num_items: self.num_items->0,
                                content_size: self.content_size->0,
                            },
                        ),
                        ..self.common()
                    },
                )
            } else {
                None
            }
        } else {
            None
        }
    }

    /// The item that a message on the wire stands for. A message that
    /// says it is a regular file gives a file, and one that says it is not
    /// gives a directory; a field of the kind that the message leaves out
    /// is zero or empty, a field of the other kind is passed over, and the
    /// object of a file is never on the wire. There is no item for a
    /// message that does not say which kind it is.
    pub open spec fn wire_item(&self) -> Option<ItemView> {
        match self.is_regular_file {
            Some(true) => Some(
                ItemView {
                    file: Some(
                        FileDataView {
                            size: or_zero(self.size),
                            mimetype: or_empty(self.mimetype),
                            timestamp: or_zero(self.timestamp),
                            object: ObjectId(0),
                        },
                    ),
                    ..self.common()
                },
            ),
            Some(false) => Some(
                ItemView {
                    directory: Some(
                        DirectoryData {
                            open_upload: self.open_upload == Some(true),
                            num_items: or_zero(self.num_items),
                            content_size: or_zero(self.content_size),
                        },
                    ),
                    ..self.common()
                },
            ),
            None => None,
        }
    }
}

impl ItemView {
    /// The message that carries the item on the wire: a directory with
    /// its three fields, else a file with its size, media type and time.
    /// There is none for an item of no kind.
    pub open spec fn wire_record(&self) -> Option<ItemRecordView> {
        let common = ItemRecordView {
            id: self.id,
            repository: self.repository,
            owner: self.owner,
            name: self.name,
            description: self.description,
            parent_item: self.parent_item,
            absolute_path: self.absolute_path,
            in_trash: self.in_trash,
            is_regular_file: None,
            size: None,
            mimetype: None,
            timestamp: None,
            object: None,
            open_upload: None,
            num_items: None,
            content_size: None,
        };
        match (self.directory, self.file) {
            (Some(d), _) => Some(
                ItemRecordView {
                    is_regular_file: Some(false),
                    open_upload: Some(d.open_upload),
                    num_items: Some(d.num_items),
                    content_size: Some(d.content_size),
                    ..common
                },
            ),
            (None, Some(f)) => Some(
                ItemRecordView {
                    is_regular_file: Some(true),
                    size: Some(f.size),
                    mimetype: Some(f.mimetype),
                    timestamp: Some(f.timestamp),
                    ..common
                },
            ),
            (None, None) => None,
        }
    }
}

pub open spec fn or_zero(value: Option<i64>) -> i64 {
    match value {
        Some(v) => v,
        None => 0,
    }
}

pub open spec fn or_empty(text: Option<Seq<char>>) -> Seq<char> {
    match text {
        Some(t) => t,
        None => Seq::empty(),
    }
}

fn number_or_zero(value: Option<i64>) -> (r: i64)
    ensures
        r == or_zero(value),
{
    match value {
        Some(v) => v,
        None => 0,
    }
}

fn text_or_empty(text: Option<EncString>) -> (r: EncString)
    ensures
        r@ == or_empty(option_text(text)),
{
    match text {
        Some(t) => t,
        None => EncString::default(),
    }
}

impl Item {
    /// The item that a row of the item view stands for. Fails with
    /// `Upstream` where the row lacks a column of its kind, or has the
    /// columns of neither kind.
    pub fn try_from_row(row: ItemRecord) -> (r: Result<Self, Error>)
        ensures
            match r {
                Ok(item) => row@.row_item() == Some(item@) && item@.has_one_kind(),
                Err(e) => e == Error::Upstream && row@.row_item() is None,
            },
    {
        let mut file: Option<FileData> = None;
        let mut directory: Option<DirectoryData> = None;
        match row.size {
            Some(size) => match (row.mimetype, row.timestamp, row.object) {
                (Some(mimetype), Some(timestamp), Some(object)) => {
                    file = Some(FileData { size, mimetype, timestamp, object });
                },
                _ => {
                    return Err(Error::Upstream);
                },
            },
            None => match row.open_upload {
                Some(open_upload) => match (row.num_items, row.content_size) {
                    (Some(num_items), Some(content_size)) => {
                        directory = Some(DirectoryData { open_upload, num_items, content_size });
                    },
                    _ => {
                        return Err(Error::Upstream);
                    },
                },
                None => {
                    return Err(Error::Upstream);
                },
            },
        }
        Ok(
            Item {
                id: row.id,
                repository: row.repository,
                owner: row.owner,
                name: row.name,
                description: row.description,
                parent_item: row.parent_item,
                absolute_path: row.absolute_path,
                in_trash: row.in_trash,
                directory,
                file,
            },
        )
    }

    /// The item that a row of the item view stands for, where the row is
    /// that of a file or of a directory.
    pub fn from_row(row: ItemRecord) -> (r: Self)
        requires
            row@.row_item() is Some,
        ensures
            row@.row_item() == Some(r@),
            r@.has_one_kind(),
    {
        match Self::try_from_row(row) {
            Ok(item) => item,
            Err(_) => Item::default(),
        }
    }

    /// The message that carries the item on the wire. Fails with
    /// `InvalidArgument` where the item is neither a file nor a directory.
    pub fn to_record(&self) -> (r: Result<ItemRecord, Error>)
        ensures
            match r {
                Ok(record) => self@.wire_record() == Some(record@),
                Err(e) => e == Error::InvalidArgument && self@.wire_record() is None,
            },
    {
        let mut record = ItemRecord {
            id: self.id,
            repository: self.repository,
            owner: self.owner,
            name: self.name.clone(),
            description: clone_option_text(&self.description),
            parent_item: self.parent_item,
            absolute_path: self.absolute_path.clone(),
            in_trash: self.in_trash,
            is_regular_file: None,
            size: None,
            mimetype: None,
            timestamp: None,
            object: None,
            open_upload: None,
            num_items: None,
            content_size: None,
        };
        match self.directory {
            Some(d) => {
                record.is_regular_file = Some(false);
                record.open_upload = Some(d.open_upload);
                record.num_items = Some(d.num_items);
                record.content_size = Some(d.content_size);
                Ok(record)
            },
            None => match &self.file {
                Some(f) => {
                    record.is_regular_file = Some(true);
                    record.size = Some(f.size);
                    record.mimetype = Some(f.mimetype.clone());
                    record.timestamp = Some(f.timestamp);
                    Ok(record)
                },
                None => Err(Error::InvalidArgument),
            },
        }
    }

    /// The item that a message on the wire stands for. Fails with
    /// `InvalidArgument` where the message does not say whether it is a
    /// file or a directory.
    pub fn from_record(record: ItemRecord) -> (r: Result<Self, Error>)
        ensures
            match r {
                Ok(item) => record@.wire_item() == Some(item@) && item@.has_one_kind(),
                Err(e) => e == Error::InvalidArgument && record@.is_regular_file is None,
            },
    {
        let is_file = match record.is_regular_file {
            Some(flag) => flag,
            None => {
                return Err(Error::InvalidArgument);
            },
        };
        let mut file: Option<FileData> = None;
        let mut directory: Option<DirectoryData> = None;
        if is_file {
            file = Some(
                FileData {
                    size: number_or_zero(record.size),
                    mimetype: text_or_empty(record.mimetype),
                    timestamp: number_or_zero(record.timestamp),
                    object: ObjectId(0),
                },
            );
        } else {
            directory = Some(
                DirectoryData {
                    open_upload: match record.open_upload {
                        Some(flag) => flag,
                        None => false,
                    },
                    num_items: number_or_zero(record.num_items),
                    content_size: number_or_zero(record.content_size),
                },
            );
        }
        Ok(
            Item {
                id: record.id,
                repository: record.repository,
                owner: record.owner,
                name: record.name,
                description: record.description,
                parent_item: record.parent_item,
                absolute_path: record.absolute_path,
                in_trash: record.in_trash,
                directory,
                file,
            },
        )
    }
}

/// An item that is a file or a directory, and not both, comes back from the
/// wire as it went, but for the object of a file, which is never on the
/// wire.
pub proof fn lemma_wire_round_trip(item: ItemView)
    requires
        item.has_one_kind(),
    ensures
        item.wire_record() is Some,
        item.wire_record()->0.wire_item() == Some(
            match item.file {
                Some(f) => ItemView {
                    file: Some(FileDataView { object: ObjectId(0), ..f }),
                    ..item
                },
                None => item,
            },
        ),
{
}

} // verus!
