//! Objects of a repository: their ids and what their bytes say.

use vstd::prelude::*;

use crate::git::commits::{GitActor, GitActorView};
use crate::host::{Outcome, OutcomeView};

verus! {

/// Whether a character is a hexadecimal digit.
pub open spec fn is_hex_digit(c: char) -> bool {
    ||| '0' <= c <= '9'
    ||| 'a' <= c <= 'f'
    ||| 'A' <= c <= 'F'
}

/// A hexadecimal digit in lower case.
pub open spec fn lower_hex_digit(c: char) -> char {
    if 'A' <= c <= 'F' {
        ((c as u8 + 32) as u8) as char
    } else {
        c
    }
}

/// The object id that a text spells: forty hexadecimal digits, read in either
/// case and written in lower case.
pub open spec fn object_id(hex: Seq<char>) -> Option<Seq<char>> {
    if hex.len() == 40 && (forall|i: int| 0 <= i < 40 ==> is_hex_digit(#[trigger] hex[i])) {
        Some(Seq::new(40, |i: int| lower_hex_digit(hex[i])))
    } else {
        None
    }
}

/// `gix::ObjectId::from_hex` accepts exactly forty hexadecimal digits of either
/// case, and the id it makes is displayed as those digits in lower case.
#[verifier::external_body]
pub(crate) fn parse_object_id(hex: &str) -> (r: Option<String>)
    ensures
        r.deep_view() == object_id(hex@),
{
    gix::ObjectId::from_hex(hex.as_bytes()).ok().map(|id| id.to_string())
}

/// One entry of a tree object.
#[derive(Debug, Clone)]
pub struct TreeItem {
    pub name: String,
    pub mode: u16,
    pub oid: String,
}

/// The value of a [`TreeItem`].
pub struct TreeItemView {
    pub name: Seq<char>,
    pub mode: u16,
    pub oid: Seq<char>,
}

impl DeepView for TreeItem {
    type V = TreeItemView;

    open spec fn deep_view(&self) -> TreeItemView {
        TreeItemView { name: self.name@, mode: self.mode, oid: self.oid@ }
    }
}

/// What the bytes of a commit object say. The tree is an error where it cannot
/// be told, and so are the people where they or their times cannot.
#[derive(Debug, Clone)]
pub struct CommitRecord {
    pub tree: Outcome<String>,
    pub parents: Vec<String>,
    pub author: Option<GitActor>,
    pub committer: Option<GitActor>,
    pub title: String,
}

/// The value of a [`CommitRecord`].
pub struct CommitRecordView {
    pub tree: OutcomeView<Seq<char>>,
    pub parents: Seq<Seq<char>>,
    pub author: Option<GitActorView>,
    pub committer: Option<GitActorView>,
    pub title: Seq<char>,
}

impl DeepView for CommitRecord {
    type V = CommitRecordView;

    open spec fn deep_view(&self) -> CommitRecordView {
        CommitRecordView {
            tree: self.tree.deep_view(),
            parents: self.parents.deep_view(),
            author: self.author.deep_view(),
            committer: self.committer.deep_view(),
            title: self.title@,
        }
    }
}

/// The tree that the bytes of a commit name, or why there is none to be had.
pub uninterp spec fn commit_tree(data: Seq<u8>) -> Result<Seq<char>, Seq<char>>;

/// The parents that the bytes of a commit name.
pub uninterp spec fn commit_parents(data: Seq<u8>) -> Seq<Seq<char>>;

/// Name, address and time of the author as the bytes of a commit spell them.
pub uninterp spec fn commit_author(data: Seq<u8>) -> Option<(Seq<u8>, Seq<u8>, Seq<char>)>;

/// Name, address and time of the committer as the bytes of a commit spell them.
pub uninterp spec fn commit_committer(data: Seq<u8>) -> Option<(Seq<u8>, Seq<u8>, Seq<char>)>;

/// Name, address and time of a person without the whitespace round each of them.
pub uninterp spec fn trimmed(name: Seq<u8>, email: Seq<u8>, time: Seq<char>) -> (
    Seq<char>,
    Seq<char>,
    Seq<char>,
);

/// The seconds and the offset that a time in a commit spells, if it does.
pub uninterp spec fn time_of(time: Seq<char>) -> Option<(i64, i32)>;

/// The message in the bytes of a commit, where it can be told.
pub uninterp spec fn commit_message(data: Seq<u8>) -> Option<Seq<u8>>;

/// The title of a message.
pub uninterp spec fn message_title(message: Seq<u8>) -> Seq<char>;

/// Name, mode and id of each entry in the bytes of a tree; the first one that
/// cannot be told is an error, and the last.
pub uninterp spec fn tree_items(data: Seq<u8>) -> Seq<
    Result<(Seq<char>, u16, Seq<char>), Seq<char>>,
>;

/// A person by name, address and time, if the time can be told.
pub open spec fn person(name: Seq<char>, email: Seq<char>, time: Option<(i64, i32)>) -> Option<
    GitActorView,
> {
    match time {
        Some((seconds, offset)) => Some(
            GitActorView { name, email, timestamp: seconds, offset_minutes: offset },
        ),
        None => None,
    }
}

/// A person as a commit spells them.
pub open spec fn actor(who: Option<(Seq<u8>, Seq<u8>, Seq<char>)>) -> Option<GitActorView> {
    match who {
        Some((name, email, time)) => {
            let parts = trimmed(name, email, time);
            person(parts.0, parts.1, time_of(parts.2))
        },
        None => None,
    }
}

/// The title of a message; where there is no message to be told, it is empty.
pub open spec fn title_of(message: Option<Seq<u8>>) -> Seq<char> {
    match message {
        Some(bytes) => message_title(bytes),
        None => Seq::empty(),
    }
}

/// The outcome that a result stands for.
pub open spec fn outcome<T>(r: Result<T, Seq<char>>) -> OutcomeView<T> {
    match r {
        Ok(value) => OutcomeView::Got(value),
        Err(error) => OutcomeView::Error(error),
    }
}

/// `gix::objs::CommitRefIter::tree_id`: the tree in the first line of a commit.
#[verifier::external_body]
fn decode_tree_id(data: &[u8]) -> (r: Outcome<String>)
    ensures
        r.deep_view() == outcome(commit_tree(data@)),
{
    match gix::objs::CommitRefIter::from_bytes(data, gix::hash::Kind::Sha1).tree_id() {
        Ok(id) => Outcome::Got(id.to_string()),
        Err(error) => Outcome::Error(error.to_string()),
    }
}

/// `gix::objs::CommitRefIter::parent_ids`: the parents of a commit, in order.
#[verifier::external_body]
fn decode_parents(data: &[u8]) -> (r: Vec<String>)
    ensures
        r.deep_view() == commit_parents(data@),
{
    gix::objs::CommitRefIter::from_bytes(data, gix::hash::Kind::Sha1)
        .parent_ids()
        .map(|id| id.to_string())
        .collect()
}

/// Who wrote or made a commit, as its bytes spell it.
type Signature = Option<(Vec<u8>, Vec<u8>, String)>;

/// The value of a [`Signature`].
spec fn signature(who: Signature) -> Option<(Seq<u8>, Seq<u8>, Seq<char>)> {
    match who {
        Some((name, email, time)) => Some((name@, email@, time@)),
        None => None,
    }
}

/// `gix::objs::CommitRefIter::author`: the author as parsed, with the whitespace that
/// may surround the parts, or nothing where it fails.
#[verifier::external_body]
fn decode_author(data: &[u8]) -> (r: Signature)
    ensures
        signature(r) == commit_author(data@),
{
    gix::objs::CommitRefIter::from_bytes(data, gix::hash::Kind::Sha1)
        .author()
        .ok()
        .map(|who| (who.name.to_vec(), who.email.to_vec(), who.time.to_string()))
}

/// `gix::objs::CommitRefIter::committer`: the committer as parsed, with the whitespace
/// that may surround the parts, or nothing where it fails.
#[verifier::external_body]
fn decode_committer(data: &[u8]) -> (r: Signature)
    ensures
        signature(r) == commit_committer(data@),
{
    gix::objs::CommitRefIter::from_bytes(data, gix::hash::Kind::Sha1)
        .committer()
        .ok()
        .map(|who| (who.name.to_vec(), who.email.to_vec(), who.time.to_string()))
}

/// `gix::actor::SignatureRef::trim`: the parts of a signature without the whitespace
/// round them, as text.
#[verifier::external_body]
fn trim_signature(name: &[u8], email: &[u8], time: &str) -> (r: (String, String, String))
    ensures
        (r.0@, r.1@, r.2@) == trimmed(name@, email@, time@),
{
    let who = gix::actor::SignatureRef { name: name.into(), email: email.into(), time }.trim();
    (who.name.to_string(), who.email.to_string(), who.time.to_string())
}

/// `gix::date::Time::from_str`: seconds and offset of a time as commits spell it, or
/// nothing where it spells none.
#[verifier::external_body]
fn parse_time(time: &str) -> (r: Option<(i64, i32)>)
    ensures
        r == time_of(time@),
{
    <gix::date::Time as std::str::FromStr>::from_str(time).ok().map(|t| (t.seconds, t.offset))
}

/// `gix::objs::CommitRefIter::message`: the message of a commit as parsed, or nothing
/// where it fails.
#[verifier::external_body]
fn decode_message(data: &[u8]) -> (r: Option<Vec<u8>>)
    ensures
        r is Some == commit_message(data@) is Some,
        r is Some ==> r->0@ == commit_message(data@)->0,
{
    gix::objs::CommitRefIter::from_bytes(data, gix::hash::Kind::Sha1)
        .message()
        .ok()
        .map(|message| message.to_vec())
}

/// `gix::objs::commit::MessageRef::from_bytes`: the title that it parts from a message,
/// as text.
#[verifier::external_body]
fn part_title(message: &[u8]) -> (r: String)
    ensures
        r@ == message_title(message@),
{
    gix::objs::commit::MessageRef::from_bytes(message).title.to_string()
}

/// A person by name, address and time, [`person`].
pub fn make_person(name: String, email: String, time: Option<(i64, i32)>) -> (r: Option<GitActor>)
    ensures
        r.deep_view() == person(name@, email@, time),
{
    match time {
        Some((seconds, offset)) => Some(
            GitActor { name, email, timestamp: seconds, offset_minutes: offset },
        ),
        None => None,
    }
}

/// A person as a commit spells them, [`actor`].
fn read_actor(who: Signature) -> (r: Option<GitActor>)
    ensures
        r.deep_view() == actor(signature(who)),
{
    match who {
        Some((name, email, time)) => {
            let parts = trim_signature(&name, &email, &time);
            let when = parse_time(&parts.2);
            make_person(parts.0, parts.1, when)
        },
        None => None,
    }
}

/// The title of a message, [`title_of`].
fn read_title(message: Option<Vec<u8>>) -> (r: String)
    ensures
        r@ == title_of(
            match message {
                Some(bytes) => Some(bytes@),
                None => None,
            },
        ),
{
    match message {
        Some(bytes) => part_title(&bytes),
        None => String::new(),
    }
}

/// `gix::objs::TreeRefIter`: the entries of a tree, in the order of its bytes.
#[verifier::external_body]
fn decode_tree_items(data: &[u8]) -> (r: Vec<Outcome<TreeItem>>)
    ensures
        r.deep_view() == listing(tree_items(data@)),
{
    gix::objs::TreeRefIter::from_bytes(data, gix::hash::Kind::Sha1)
        .map(|entry| match entry {
            Ok(entry) => Outcome::Got(TreeItem {
                name: entry.filename.to_string(),
                mode: entry.mode.value(),
                oid: entry.oid.to_string(),
            }),
            Err(error) => Outcome::Error(error.to_string()),
        })
        .collect()
}

/// The record of a commit with the given bytes.
pub open spec fn commit_record(data: Seq<u8>) -> CommitRecordView {
    CommitRecordView {
        tree: outcome(commit_tree(data)),
        parents: commit_parents(data),
        author: actor(commit_author(data)),
        committer: actor(commit_committer(data)),
        title: title_of(commit_message(data)),
    }
}

/// The entries of a tree with the given bytes.
pub open spec fn tree_record(data: Seq<u8>) -> Seq<OutcomeView<TreeItemView>> {
    listing(tree_items(data))
}

/// The entries that name, mode and id make.
pub open spec fn listing(items: Seq<Result<(Seq<char>, u16, Seq<char>), Seq<char>>>) -> Seq<
    OutcomeView<TreeItemView>,
> {
    items.map_values(
        |item: Result<(Seq<char>, u16, Seq<char>), Seq<char>>|
            match item {
                Ok((name, mode, oid)) => OutcomeView::Got(TreeItemView { name, mode, oid }),
                Err(error) => OutcomeView::Error(error),
            },
    )
}

/// Reads the bytes of a commit object, [`commit_record`].
pub fn read_commit(data: &[u8]) -> (r: CommitRecord)
    ensures
        r.deep_view() == commit_record(data@),
{
    CommitRecord {
        tree: decode_tree_id(data),
        parents: decode_parents(data),
        author: read_actor(decode_author(data)),
        committer: read_actor(decode_committer(data)),
        title: read_title(decode_message(data)),
    }
}

/// Reads the bytes of a tree object, [`tree_record`].
pub fn read_tree(data: &[u8]) -> (r: Vec<Outcome<TreeItem>>)
    ensures
        r.deep_view() == tree_record(data@),
{
    decode_tree_items(data)
}

/// The bits of a mode that tell what kind of entry it is.
pub const KIND_BITS: u16 = 0o170000;

/// The kinds of entries that a tree can have.
#[derive(Debug, Clone, Copy, PartialEq, Eq, Structural)]
pub enum EntryKind {
    Tree,
    Blob,
    BlobExecutable,
    Link,
    Commit,
}

/// The kind of entry that a mode stands for: a file is executable if its owner
/// may execute it, and what is neither file, link nor tree is a submodule.
pub open spec fn kind_of(mode: u16) -> EntryKind {
    if mode & KIND_BITS == 0o100000 {
        if mode & 0o000100 == 0o000100 {
            EntryKind::BlobExecutable
        } else {
            EntryKind::Blob
        }
    } else if mode & KIND_BITS == 0o120000 {
        EntryKind::Link
    } else if mode & KIND_BITS == 0o040000 {
        EntryKind::Tree
    } else {
        EntryKind::Commit
    }
}

/// The kind of entry that a mode stands for, [`kind_of`].
pub fn entry_kind(mode: u16) -> (r: EntryKind)
    ensures
        r == kind_of(mode),
{
    if mode & KIND_BITS == 0o100000 {
        if mode & 0o000100 == 0o000100 {
            EntryKind::BlobExecutable
        } else {
            EntryKind::Blob
        }
    } else if mode & KIND_BITS == 0o120000 {
        EntryKind::Link
    } else if mode & KIND_BITS == 0o040000 {
        EntryKind::Tree
    } else {
        EntryKind::Commit
    }
}

/// The number of bytes at the start of a file that show whether it is binary.
pub const SNIFFED: usize = 8192;

/// Whether contents look binary: a zero among the first [`SNIFFED`] bytes.
pub open spec fn looks_binary(data: Seq<u8>) -> bool {
    exists|i: int| 0 <= i < data.len() && i < SNIFFED && data[i] == 0
}

/// Whether contents look binary, [`looks_binary`].
pub fn is_binary_content(data: &[u8]) -> (r: bool)
    ensures
        r == looks_binary(data@),
{
    let mut i: usize = 0;
    while i < data.len() && i < SNIFFED
        invariant
            i <= data@.len(),
            forall|k: int| 0 <= k < i ==> data@[k] != 0,
        decreases data@.len() - i,
    {
        if data[i] == 0 {
            return true;
        }
        i = i + 1;
    }
    false
}

} // verus!
