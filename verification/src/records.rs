//! The typed rows of the export files and the composite units built from
//! them.  Each record has a view function onto character sequences so that
//! contracts can speak about contents independently of allocation.

use vstd::prelude::*;
use vstd::string::*;
use crate::strmap::StrMap;

verus! {

/// An operator-configured routing rule: which destination object type and
/// identifying property a source prefix maps to.
pub struct ObjectMapping {
    pub hubspot_object: String,
    pub salesforce_property: String,
}

impl ObjectMapping {
    pub open spec fn view(&self) -> (Seq<char>, Seq<char>) {
        (self.hubspot_object@, self.salesforce_property@)
    }

    pub fn duplicate(&self) -> (r: Self)
        ensures
            r == *self,
    {
        ObjectMapping {
            hubspot_object: self.hubspot_object.clone(),
            salesforce_property: self.salesforce_property.clone(),
        }
    }
}

/// A row of the link export: a parent entity tied to a content item.
pub struct ContentDocumentLinkRecord {
    pub linked_entity_id: String,
    pub content_document_id: String,
}

/// A row of the content-item export.
pub struct ContentVersionRecord {
    pub id: String,
    pub content_document_id: String,
    pub path_on_client: String,
    pub version_data: Option<String>,
}

/// A file payload: version id, bare file name, optional base64 payload.
pub struct FileInfo {
    pub version_id: String,
    pub path_on_client: String,
    pub version_data: Option<String>,
}

/// View of an optional string.
pub open spec fn opt_view(o: Option<String>) -> Option<Seq<char>> {
    match o {
        Some(s) => Some(s@),
        None => None,
    }
}

impl FileInfo {
    pub open spec fn view(&self) -> (Seq<char>, Seq<char>, Option<Seq<char>>) {
        (self.version_id@, self.path_on_client@, opt_view(self.version_data))
    }

    pub fn duplicate(&self) -> (r: Self)
        ensures
            r == *self,
    {
        FileInfo {
            version_id: self.version_id.clone(),
            path_on_client: self.path_on_client.clone(),
            version_data: match &self.version_data {
                Some(s) => Some(s.clone()),
                None => None,
            },
        }
    }
}

/// One parent entity with the deduplicated content items to attach.
pub struct ProcessableRecord {
    pub salesforce_id: String,
    pub content_document_ids: Vec<String>,
}

/// A row of the feed-post export.
pub struct ChatterFeedItemRecord {
    pub id: String,
    pub parent_id: String,
    pub body: String,
    pub created_by_id: String,
    pub created_date: String,
}

impl ChatterFeedItemRecord {
    pub open spec fn view(&self) -> (Seq<char>, Seq<char>, Seq<char>, Seq<char>, Seq<char>) {
        (self.id@, self.parent_id@, self.body@, self.created_by_id@, self.created_date@)
    }

    pub fn duplicate(&self) -> (r: Self)
        ensures
            r == *self,
    {
        ChatterFeedItemRecord {
            id: self.id.clone(),
            parent_id: self.parent_id.clone(),
            body: self.body.clone(),
            created_by_id: self.created_by_id.clone(),
            created_date: self.created_date.clone(),
        }
    }
}

/// A row of the feed-comment export.
pub struct ChatterCommentRecord {
    pub id: String,
    pub feed_item_id: String,
    pub comment_body: String,
    pub created_by_id: String,
    pub created_date: String,
    pub related_record_id: String,
}

impl ChatterCommentRecord {
    pub open spec fn view(&self) -> (
        Seq<char>,
        Seq<char>,
        Seq<char>,
        Seq<char>,
        Seq<char>,
        Seq<char>,
    ) {
        (
            self.id@,
            self.feed_item_id@,
            self.comment_body@,
            self.created_by_id@,
            self.created_date@,
            self.related_record_id@,
        )
    }

    pub fn duplicate(&self) -> (r: Self)
        ensures
            r == *self,
    {
        ChatterCommentRecord {
            id: self.id.clone(),
            feed_item_id: self.feed_item_id.clone(),
            comment_body: self.comment_body.clone(),
            created_by_id: self.created_by_id.clone(),
            created_date: self.created_date.clone(),
            related_record_id: self.related_record_id.clone(),
        }
    }
}

/// Copy a vector of comments.
pub fn duplicate_comments(v: &Vec<ChatterCommentRecord>) -> (r: Vec<ChatterCommentRecord>)
    ensures
        r@ == v@,
{
    let n = v.len();
    let mut out: Vec<ChatterCommentRecord> = Vec::new();
    let mut i: usize = 0;
    while i < n
        invariant
            0 <= i <= n,
            n == v@.len(),
            out@ == v@.take(i as int),
        decreases n - i,
    {
        out.push(v[i].duplicate());
        proof {
            assert(out@ =~= v@.take(i + 1));
        }
        i += 1;
    }
    proof {
        assert(v@.take(n as int) =~= v@);
    }
    out
}

/// Copy a vector of strings.
pub fn duplicate_strings(v: &Vec<String>) -> (r: Vec<String>)
    ensures
        r@ == v@,
{
    let n = v.len();
    let mut out: Vec<String> = Vec::new();
    let mut i: usize = 0;
    while i < n
        invariant
            0 <= i <= n,
            n == v@.len(),
            out@ == v@.take(i as int),
        decreases n - i,
    {
        out.push(v[i].clone());
        proof {
            assert(out@ =~= v@.take(i + 1));
        }
        i += 1;
    }
    proof {
        assert(v@.take(n as int) =~= v@);
    }
    out
}

/// Copy a vector of feed posts.
pub fn duplicate_feed_items(v: &Vec<ChatterFeedItemRecord>) -> (r: Vec<ChatterFeedItemRecord>)
    ensures
        r@ == v@,
{
    let n = v.len();
    let mut out: Vec<ChatterFeedItemRecord> = Vec::new();
    let mut i: usize = 0;
    while i < n
        invariant
            0 <= i <= n,
            n == v@.len(),
            out@ == v@.take(i as int),
        decreases n - i,
    {
        out.push(v[i].duplicate());
        proof {
            assert(out@ =~= v@.take(i + 1));
        }
        i += 1;
    }
    proof {
        assert(v@.take(n as int) =~= v@);
    }
    out
}

/// A row of the user export.
pub struct UserRecord {
    pub id: String,
    pub name: String,
    pub username: String,
}

impl UserRecord {
    pub open spec fn view(&self) -> (Seq<char>, Seq<char>, Seq<char>) {
        (self.id@, self.name@, self.username@)
    }
}

/// A row of the feed-attachment export.
pub struct FeedAttachmentRecord {
    pub id: String,
    pub feed_entity_id: String,
    pub record_id: String,
    pub attachment_type: String,
}

/// One feed post with its ordered comments and attachment references.
pub struct FeedItemWithComments {
    pub feed_item: ChatterFeedItemRecord,
    pub comments: Vec<ChatterCommentRecord>,
    pub feed_item_attachment_ids: Vec<String>,
    pub comment_attachments: StrMap<Vec<String>>,
}

/// One parent entity's bundle of feed posts to migrate.
pub struct ProcessableChatterRecord {
    pub salesforce_id: String,
    pub feed_items: Vec<FeedItemWithComments>,
}

} // verus!
