//! Tests for the CSV readers and groupers.

use sfhs_migrate::csvtext::CsvError;
use sfhs_migrate::processor::CsvProcessor;
use sfhs_migrate::records::ChatterCommentRecord;
use sfhs_migrate::records::ChatterFeedItemRecord;
use sfhs_migrate::records::ObjectMapping;
use sfhs_migrate::sorting::sort_comments;
use sfhs_migrate::strmap::StrMap;

fn contact_mappings() -> StrMap<ObjectMapping> {
    let mut m = StrMap::new();
    m.insert(
        "001".to_string(),
        ObjectMapping {
            hubspot_object: "companies".to_string(),
            salesforce_property: "sf_id".to_string(),
        },
    );
    m
}

#[test]
fn extract_buckets_routed_rows_by_prefix() {
    let m = contact_mappings();
    let text = "LinkedEntityId,ContentDocumentId\n\
                001A,069X\n\
                001B,069Y\n\
                003C,069Z\n\
                xy,069W\n\
                001A,\n";
    let buckets = CsvProcessor::extract_target_records(text, &m).unwrap();
    assert_eq!(buckets.len(), 1);
    let pairs = buckets.get("001").unwrap();
    assert_eq!(pairs.len(), 2);
    assert_eq!(pairs[0], ("001A".to_string(), "069X".to_string()));
    assert_eq!(pairs[1], ("001B".to_string(), "069Y".to_string()));
}

#[test]
fn extract_rejects_missing_link_column() {
    let m = contact_mappings();
    let r = CsvProcessor::extract_target_records("LinkedEntityId\n001A\n", &m);
    assert_eq!(
        r.err().unwrap(),
        CsvError::MissingColumn("ContentDocumentId".to_string())
    );
}

#[test]
fn version_map_takes_the_last_row_per_id() {
    let text = "Id,ContentDocumentId,PathOnClient\n068A,069X,a\n068A,069Y,b\n";
    let m = CsvProcessor::build_content_version_to_document_map(text).unwrap();
    assert_eq!(m.get("068A").unwrap(), "069Y");
}

#[test]
fn validate_reports_each_missing_column() {
    let cv = "Id,ContentDocumentId,PathOnClient\n";
    let cdl = "LinkedEntityId,ContentDocumentId\n";
    assert!(CsvProcessor::validate_csv_files(cv, cdl).is_ok());
    let bad_cv = "Id,PathOnClient\n";
    assert_eq!(
        CsvProcessor::validate_csv_files(bad_cv, cdl).err().unwrap(),
        CsvError::MissingColumn("ContentDocumentId".to_string())
    );
    let bad_cdl = "LinkedEntityId\n";
    assert_eq!(
        CsvProcessor::validate_csv_files(cv, bad_cdl).err().unwrap(),
        CsvError::MissingColumn("ContentDocumentId".to_string())
    );
}

#[test]
fn analyze_counts_prefixes_after_trimming() {
    let text = "LinkedEntityId,ContentDocumentId\n 001A ,x\n001B,y\n500C,z\nab,w\n";
    let groups = CsvProcessor::analyze_object_groups(text).unwrap();
    assert_eq!(*groups.get("001").unwrap(), 2);
    assert_eq!(*groups.get("500").unwrap(), 1);
    assert_eq!(groups.len(), 2);
}

#[test]
fn chatter_analyze_counts_parent_prefixes() {
    let text = "Id,ParentId,Body,CreatedById,CreatedDate\nF1,001A,b,u,d\nF2,003B,b,u,d\n";
    let groups = CsvProcessor::analyze_chatter_object_groups(text).unwrap();
    assert_eq!(*groups.get("001").unwrap(), 1);
    assert_eq!(*groups.get("003").unwrap(), 1);
}

#[test]
fn chatter_attachment_counting_by_prefix() {
    let text = "LinkedEntityId,ContentDocumentId\n0D5A,x\n0D7B,y\n0D5C,z\n001D,w\n";
    let (fi, fc) = CsvProcessor::count_chatter_attachments(text).unwrap();
    assert_eq!(fi, 2);
    assert_eq!(fc, 1);
}

#[test]
fn feed_items_bucketed_by_parent_prefix() {
    let m = contact_mappings();
    let text = "Id,ParentId,Body,CreatedById,CreatedDate\n\
                F1,001A,hello,U1,2023-01-01T00:00:00Z\n\
                F2,003B,other,U1,2023-01-01T00:00:00Z\n";
    let buckets = CsvProcessor::extract_chatter_records(text, &m).unwrap();
    assert_eq!(buckets.len(), 1);
    let items = buckets.get("001").unwrap();
    assert_eq!(items.len(), 1);
    assert_eq!(items[0].id, "F1");
    assert_eq!(items[0].parent_id, "001A");
}

#[test]
fn comments_are_loaded_only_for_targeted_posts() {
    let text = "Id,FeedItemId,CommentBody,CreatedById,CreatedDate,RelatedRecordId\n\
                C1,F1,hi,U1,2023-01-01T00:00:00Z,\n\
                C2,F9,skip,U1,2023-01-01T00:00:00Z,\n";
    let targets = vec!["F1".to_string()];
    let m = CsvProcessor::load_feed_comments(text, &targets).unwrap();
    assert_eq!(m.len(), 1);
    assert_eq!(m.get("F1").unwrap().len(), 1);
    assert_eq!(m.get("F1").unwrap()[0].comment_body, "hi");
}

#[test]
fn comments_tolerate_a_missing_related_column() {
    let text = "Id,FeedItemId,CommentBody,CreatedById,CreatedDate\n\
                C1,F1,hi,U1,2023-01-01T00:00:00Z\n";
    let targets = vec!["F1".to_string()];
    let m = CsvProcessor::load_feed_comments(text, &targets).unwrap();
    assert_eq!(m.get("F1").unwrap()[0].related_record_id, "");
}

#[test]
fn users_load_into_an_id_keyed_lookup() {
    let text = "Id,Name,Username\nU1,Ada,ada@example.com\n";
    let users = CsvProcessor::load_users(text).unwrap();
    let u = users.get("U1").unwrap();
    assert_eq!(u.name, "Ada");
    assert_eq!(u.username, "ada@example.com");
}

#[test]
fn feed_attachments_translate_version_references() {
    let mut vmap = StrMap::new();
    vmap.insert("068V".to_string(), "069D".to_string());
    let text = "Id,FeedEntityId,RecordId,Type\n\
                A1,F1,068V,Content\n\
                A2,F1,068Q,InlineImage\n\
                A3,F1,069R,Content\n\
                A4,F1,069S,Link\n\
                A5,F9,069T,Content\n";
    let targets = vec!["F1".to_string()];
    let m = CsvProcessor::load_feed_attachments(text, &targets, &vmap).unwrap();
    let ids = m.get("F1").unwrap();
    // 068V is translated, unknown 068Q passes through verbatim, 069R stays,
    // the Link row and the untargeted post are dropped
    assert_eq!(
        ids,
        &vec!["069D".to_string(), "068Q".to_string(), "069R".to_string()]
    );
}

#[test]
fn chatter_links_keep_targeted_posts_and_all_comments() {
    let text = "LinkedEntityId,ContentDocumentId\n\
                0D5A,069X\n\
                0D5B,069Y\n\
                0D7C,069Z\n\
                001D,069W\n";
    let targets = vec!["0D5A".to_string()];
    let m = CsvProcessor::load_chatter_content_document_links(text, &targets).unwrap();
    assert_eq!(m.len(), 2);
    assert_eq!(m.get("0D5A").unwrap(), &vec!["069X".to_string()]);
    assert_eq!(m.get("0D7C").unwrap(), &vec!["069Z".to_string()]);
    assert!(m.get("0D5B").is_none());
}

#[test]
fn grouping_deduplicates_content_ids() {
    // a parent linking the same content item twice keeps it once
    let records = vec![
        ("001A".to_string(), "069X".to_string()),
        ("001A".to_string(), "069X".to_string()),
        ("001A".to_string(), "069Y".to_string()),
        ("001B".to_string(), "069Z".to_string()),
    ];
    let mut cache = StrMap::new();
    cache.insert("001A".to_string(), "HS1".to_string());
    let grouped = CsvProcessor::group_records_by_salesforce_id(&records, &cache);
    assert_eq!(grouped.len(), 1);
    assert_eq!(grouped[0].salesforce_id, "001A");
    assert_eq!(
        grouped[0].content_document_ids,
        vec!["069X".to_string(), "069Y".to_string()]
    );
}

fn comment(id: &str, date: &str) -> ChatterCommentRecord {
    ChatterCommentRecord {
        id: id.to_string(),
        feed_item_id: "F1".to_string(),
        comment_body: format!("body {}", id),
        created_by_id: "U1".to_string(),
        created_date: date.to_string(),
        related_record_id: "".to_string(),
    }
}

#[test]
fn comments_sort_chronologically() {
    // timestamps arrive as [T3, T1, T2] and come out [T1, T2, T3]
    let v = vec![
        comment("C3", "2023-01-03T00:00:00Z"),
        comment("C1", "2023-01-01T00:00:00Z"),
        comment("C2", "2023-01-02T00:00:00Z"),
    ];
    let sorted = sort_comments(v);
    let ids: Vec<&str> = sorted.iter().map(|c| c.id.as_str()).collect();
    assert_eq!(ids, vec!["C1", "C2", "C3"]);
}

#[test]
fn comment_sort_is_stable_on_ties() {
    let v = vec![
        comment("C2", "2023-01-01T00:00:00Z"),
        comment("C1", "2023-01-01T00:00:00Z"),
    ];
    let sorted = sort_comments(v);
    let ids: Vec<&str> = sorted.iter().map(|c| c.id.as_str()).collect();
    assert_eq!(ids, vec!["C2", "C1"]);
}

#[test]
fn chatter_grouping_sorts_posts_and_translates_comment_attachments() {
    let mut feed_items: StrMap<Vec<ChatterFeedItemRecord>> = StrMap::new();
    let mk = |id: &str, date: &str| ChatterFeedItemRecord {
        id: id.to_string(),
        parent_id: "001A".to_string(),
        body: format!("post {}", id),
        created_by_id: "U1".to_string(),
        created_date: date.to_string(),
    };
    feed_items.insert(
        "001".to_string(),
        vec![
            mk("F2", "2023-02-01T00:00:00Z"),
            mk("F1", "2023-01-01T00:00:00Z"),
        ],
    );

    let mut comments: StrMap<Vec<ChatterCommentRecord>> = StrMap::new();
    let mut c1 = comment("C1", "2023-01-02T00:00:00Z");
    c1.related_record_id = "068V".to_string();
    let mut c2 = comment("C2", "2023-01-01T00:00:00Z");
    c2.related_record_id = "notes".to_string();
    comments.insert("F1".to_string(), vec![c1, c2]);

    let mut found = StrMap::new();
    found.insert("001A".to_string(), "HS1".to_string());

    let mut links: StrMap<Vec<String>> = StrMap::new();
    links.insert("F1".to_string(), vec!["069B".to_string(), "069A".to_string()]);
    let mut atts: StrMap<Vec<String>> = StrMap::new();
    atts.insert("F1".to_string(), vec!["069A".to_string()]);

    let mut vmap = StrMap::new();
    vmap.insert("068V".to_string(), "069D".to_string());

    let grouped =
        CsvProcessor::group_chatter_records(&feed_items, &comments, &found, &links, &atts, &vmap);
    assert_eq!(grouped.len(), 1);
    let rec = &grouped[0];
    assert_eq!(rec.salesforce_id, "001A");
    // posts are sorted by date: F1 before F2
    assert_eq!(rec.feed_items.len(), 2);
    assert_eq!(rec.feed_items[0].feed_item.id, "F1");
    assert_eq!(rec.feed_items[1].feed_item.id, "F2");
    // comments of F1 are sorted: C2 (earlier) before C1
    let unit = &rec.feed_items[0];
    assert_eq!(unit.comments.len(), 2);
    assert_eq!(unit.comments[0].id, "C2");
    assert_eq!(unit.comments[1].id, "C1");
    // attachments are united, deduplicated, sorted
    assert_eq!(
        unit.feed_item_attachment_ids,
        vec!["069A".to_string(), "069B".to_string()]
    );
    // C1's version reference is translated; C2's unrelated id is dropped
    assert_eq!(
        unit.comment_attachments.get("C1").unwrap(),
        &vec!["069D".to_string()]
    );
    assert!(unit.comment_attachments.get("C2").is_none());
    // the untouched post has no comments
    assert_eq!(rec.feed_items[1].comments.len(), 0);
}

#[test]
fn strmap_insert_replaces_and_keeps_order() {
    let mut m: StrMap<u32> = StrMap::new();
    m.insert("b".to_string(), 1);
    m.insert("a".to_string(), 2);
    m.insert("b".to_string(), 3);
    assert_eq!(m.len(), 2);
    assert_eq!(m.get("b"), Some(&3));
    assert_eq!(m.key_at(0), "b");
    assert_eq!(m.key_at(1), "a");
    assert!(!m.contains_key("c"));
}
