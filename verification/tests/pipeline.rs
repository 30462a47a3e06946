//! Scenario tests for the resolution, execution and reporting stages.

use sfhs_migrate::csvtext::CsvError;
use sfhs_migrate::executor::chatter_note_status;
use sfhs_migrate::executor::file_unit_status;
use sfhs_migrate::executor::join_attachment_ids;
use sfhs_migrate::executor::plan_unit_files;
use sfhs_migrate::executor::unit_note_plan;
use sfhs_migrate::executor::FileEvent;
use sfhs_migrate::executor::NoteStatus;
use sfhs_migrate::note_html::generate_chatter_note_html;
use sfhs_migrate::processor::CsvProcessor;
use sfhs_migrate::records::ChatterCommentRecord;
use sfhs_migrate::records::ChatterFeedItemRecord;
use sfhs_migrate::records::FeedItemWithComments;
use sfhs_migrate::records::ObjectMapping;
use sfhs_migrate::records::UserRecord;
use sfhs_migrate::report::MigrationRun;
use sfhs_migrate::resolver::merge_found;
use sfhs_migrate::resolver::missing_ids;
use sfhs_migrate::resolver::plan_batches;
use sfhs_migrate::strmap::StrMap;

#[test]
fn batches_are_chunked_at_the_limit() {
    let ids: Vec<String> = (0..250).map(|i| format!("001{:04}", i)).collect();
    let batches = plan_batches(&ids, 100);
    assert_eq!(batches.len(), 3);
    assert_eq!(batches[0].len(), 100);
    assert_eq!(batches[1].len(), 100);
    assert_eq!(batches[2].len(), 50);
    let rejoined: Vec<String> = batches.into_iter().flatten().collect();
    assert_eq!(rejoined, ids);
}

#[test]
fn resolution_is_idempotent_across_batching() {
    // the same id set and the same remote answers, split differently,
    // produce the same cache
    let mut remote_a: StrMap<String> = StrMap::new();
    remote_a.insert("001A".to_string(), "1".to_string());
    remote_a.insert("001B".to_string(), "2".to_string());
    let mut remote_b: StrMap<String> = StrMap::new();
    remote_b.insert("001C".to_string(), "3".to_string());

    let mut cache1: StrMap<String> = StrMap::new();
    merge_found(&mut cache1, &remote_a);
    merge_found(&mut cache1, &remote_b);

    let mut remote_all: StrMap<String> = StrMap::new();
    remote_all.insert("001A".to_string(), "1".to_string());
    remote_all.insert("001B".to_string(), "2".to_string());
    remote_all.insert("001C".to_string(), "3".to_string());
    let mut cache2: StrMap<String> = StrMap::new();
    merge_found(&mut cache2, &remote_all);

    for id in ["001A", "001B", "001C"] {
        assert_eq!(cache1.get(id), cache2.get(id));
    }
    assert_eq!(cache1.len(), cache2.len());
}

#[test]
fn skip_accounting_counts_each_unresolved_parent() {
    // 10 unique parents, the resolver knows 7: exactly 3 skip rows and a
    // skip count of 3
    let ids: Vec<String> = (0..10).map(|i| format!("001id{}", i)).collect();
    let mut cache: StrMap<String> = StrMap::new();
    for i in 0..7 {
        cache.insert(format!("001id{}", i), format!("HS{}", i));
    }
    let missing = missing_ids(&ids, &cache);
    assert_eq!(missing.len(), 3);

    let mut run = MigrationRun::new_file_mapping();
    run.record_file_skips("001", "companies", &missing);
    assert_eq!(run.rows.len(), 3);
    for row in &run.rows {
        assert_eq!(row[7], "skipped");
    }
    let (_, summaries) = run.finish();
    assert_eq!(summaries.len(), 1);
    assert_eq!(summaries[0].prefix, "001");
    assert_eq!(summaries[0].skipped_count, 3);
    assert_eq!(summaries[0].success_count, 0);
    assert_eq!(summaries[0].error_count, 0);
}

#[test]
fn every_parent_gets_exactly_one_terminal_row() {
    // skips for the unresolved, one outcome row per resolved parent: ten
    // parents, ten rows, each id exactly once
    let ids: Vec<String> = (0..10).map(|i| format!("001id{}", i)).collect();
    let mut cache: StrMap<String> = StrMap::new();
    for i in 0..7 {
        cache.insert(format!("001id{}", i), format!("HS{}", i));
    }
    let missing = missing_ids(&ids, &cache);
    let mut run = MigrationRun::new_file_mapping();
    run.record_file_skips("001", "companies", &missing);
    for id in &ids {
        if cache.get(id).is_some() {
            run.record_file_success("001", "companies", id, "HS", "url", 1, 1, true);
        }
    }
    assert_eq!(run.rows.len(), 10);
    for id in &ids {
        let occurrences = run.rows.iter().filter(|r| &r[0] == id).count();
        assert_eq!(occurrences, 1);
    }
    let (_, summaries) = run.finish();
    assert_eq!(summaries[0].skipped_count, 3);
    assert_eq!(summaries[0].success_count, 7);
    assert_eq!(
        summaries[0].success_count + summaries[0].skipped_count + summaries[0].error_count,
        10
    );
}

#[test]
fn file_mapping_end_to_end_success() {
    // two link rows for one parent and one content item, payload present,
    // parent resolves: one success row, one file uploaded, a note created
    let mut mappings = StrMap::new();
    mappings.insert(
        "001".to_string(),
        ObjectMapping {
            hubspot_object: "companies".to_string(),
            salesforce_property: "sf_id".to_string(),
        },
    );
    let link_text = "LinkedEntityId,ContentDocumentId\n001A,069X\n001A,069X\n";
    let cv_text = "Id,ContentDocumentId,PathOnClient,VersionData\n068V,069X,docs/Report.PDF,aGVsbG8=\n";

    let targets = CsvProcessor::extract_target_records(link_text, &mappings).unwrap();
    let (file_info, filtered) =
        CsvProcessor::get_file_info_and_filter_records(cv_text, &targets, None).unwrap();

    let pairs = filtered.get("001").unwrap();
    let parent_ids: Vec<String> = pairs.iter().map(|p| p.0.clone()).collect();

    // the resolver's answer: the parent exists
    let mut cache: StrMap<String> = StrMap::new();
    cache.insert("001A".to_string(), "HS1".to_string());
    let missing = missing_ids(&parent_ids, &cache);
    assert_eq!(missing.len(), 0);

    let units = CsvProcessor::group_records_by_salesforce_id(pairs, &cache);
    assert_eq!(units.len(), 1);
    assert_eq!(units[0].content_document_ids, vec!["069X".to_string()]);

    let tasks = plan_unit_files(&units[0], &file_info);
    assert_eq!(tasks.len(), 1);
    assert_eq!(tasks[0].path, "salesforce/Report_068V.pdf");
    assert_eq!(tasks[0].version_data, Some("aGVsbG8=".to_string()));

    // the remote says the file is absent; the upload succeeds
    let events = vec![FileEvent::Uploaded("FILE9".to_string())];
    let (uploaded, file_ids) = unit_note_plan(&events);
    assert_eq!(uploaded, 1);
    assert_eq!(file_ids, vec!["FILE9".to_string()]);
    let note_created = !file_ids.is_empty();

    let mut run = MigrationRun::new_file_mapping();
    run.record_file_skips("001", "companies", &missing);
    run.record_file_success(
        "001",
        "companies",
        &units[0].salesforce_id,
        "HS1",
        "https://app.hubspot.com/contacts/1/record/0-2/HS1",
        units[0].content_document_ids.len(),
        uploaded,
        note_created,
    );
    assert_eq!(run.rows.len(), 1);
    let row = &run.rows[0];
    assert_eq!(row[0], "001A");
    assert_eq!(row[5], "1"); // files uploaded
    assert_eq!(row[6], "true"); // note created
    assert_eq!(row[7], "success");
    let (csv_text, summaries) = run.finish();
    assert!(csv_text.starts_with("Salesforce ID,HubSpot Object,"));
    assert!(csv_text.contains("\n001A,companies,HS1,"));
    assert_eq!(summaries[0].success_count, 1);
    assert_eq!(summaries[0].uploaded_files, 1);
}

#[test]
fn payload_folder_fallback_is_base64_encoded() {
    // a row without inline payload picks it up from the folder, encoded
    let mut mappings = StrMap::new();
    mappings.insert(
        "001".to_string(),
        ObjectMapping {
            hubspot_object: "companies".to_string(),
            salesforce_property: "sf_id".to_string(),
        },
    );
    let link_text = "LinkedEntityId,ContentDocumentId\n001A,069X\n";
    let cv_text = "Id,ContentDocumentId,PathOnClient,VersionData\n068V,069X,a.txt,\n";
    let targets = CsvProcessor::extract_target_records(link_text, &mappings).unwrap();
    let mut folder: StrMap<Vec<u8>> = StrMap::new();
    folder.insert("068V".to_string(), b"hello".to_vec());
    let (file_info, _) =
        CsvProcessor::get_file_info_and_filter_records(cv_text, &targets, Some(&folder)).unwrap();
    let fi = file_info.get("069X").unwrap();
    assert_eq!(fi.version_data, Some("aGVsbG8=".to_string()));
}

#[test]
fn units_without_payload_are_filtered_out() {
    // 069X has an inline payload, 069MISSING has no row at all, and
    // 069NOPAY has a row but no resolvable payload: only the first pair
    // survives the filter
    let mut mappings = StrMap::new();
    mappings.insert(
        "001".to_string(),
        ObjectMapping {
            hubspot_object: "companies".to_string(),
            salesforce_property: "sf_id".to_string(),
        },
    );
    let link_text =
        "LinkedEntityId,ContentDocumentId\n001A,069X\n001B,069MISSING\n001C,069NOPAY\n";
    let cv_text = "Id,ContentDocumentId,PathOnClient,VersionData\n\
                   068V,069X,a.txt,AAAA\n\
                   068W,069NOPAY,b.txt,\n";
    let targets = CsvProcessor::extract_target_records(link_text, &mappings).unwrap();
    let (file_info, filtered) =
        CsvProcessor::get_file_info_and_filter_records(cv_text, &targets, None).unwrap();
    // the payload-less item still has its file row, but its pair is dropped
    assert!(file_info.get("069NOPAY").is_some());
    assert_eq!(file_info.get("069NOPAY").unwrap().version_data, None);
    let pairs = filtered.get("001").unwrap();
    assert_eq!(pairs.len(), 1);
    assert_eq!(pairs[0].0, "001A");
}

#[test]
fn prefixes_left_without_payload_pairs_disappear() {
    let mut mappings = StrMap::new();
    mappings.insert(
        "001".to_string(),
        ObjectMapping {
            hubspot_object: "companies".to_string(),
            salesforce_property: "sf_id".to_string(),
        },
    );
    let link_text = "LinkedEntityId,ContentDocumentId\n001A,069NOPAY\n";
    let cv_text = "Id,ContentDocumentId,PathOnClient,VersionData\n068W,069NOPAY,b.txt,\n";
    let targets = CsvProcessor::extract_target_records(link_text, &mappings).unwrap();
    let (_, filtered) =
        CsvProcessor::get_file_info_and_filter_records(cv_text, &targets, None).unwrap();
    assert!(filtered.get("001").is_none());
    assert_eq!(filtered.len(), 0);
}

#[test]
fn partial_failure_yields_partial_status() {
    // 3 posts, notes created for 2: the unit is partial with 2 notes
    let status = chatter_note_status(2, 3);
    assert!(matches!(status, NoteStatus::Partial));
    let mut run = MigrationRun::new_chatter();
    run.record_chatter_outcome("001", "companies", "001A", "HS1", "url", 3, 2, status);
    assert_eq!(run.rows.len(), 1);
    let row = &run.rows[0];
    assert_eq!(row[4], "3"); // feed items
    assert_eq!(row[5], "2"); // notes created
    assert_eq!(row[6], "partial");
    let (_, summaries) = run.finish();
    assert_eq!(summaries[0].success_count, 1);
    assert_eq!(summaries[0].uploaded_files, 2);
}

#[test]
fn all_and_none_note_statuses() {
    assert!(matches!(chatter_note_status(3, 3), NoteStatus::Success));
    assert!(matches!(chatter_note_status(0, 3), NoteStatus::Error));
    assert!(matches!(chatter_note_status(0, 0), NoteStatus::Success));
}

#[test]
fn malformed_link_export_aborts_before_any_row() {
    // the link export lacks its content column: the run stops at
    // validation, before any audit output exists
    let cv_text = "Id,ContentDocumentId,PathOnClient\n068V,069X,a.txt\n";
    let bad_link = "LinkedEntityId\n001A\n";
    let r = CsvProcessor::validate_csv_files(cv_text, bad_link);
    assert_eq!(
        r.err().unwrap(),
        CsvError::MissingColumn("ContentDocumentId".to_string())
    );
    let mut mappings = StrMap::new();
    mappings.insert(
        "001".to_string(),
        ObjectMapping {
            hubspot_object: "companies".to_string(),
            salesforce_property: "sf_id".to_string(),
        },
    );
    let r2 = CsvProcessor::extract_target_records(bad_link, &mappings);
    assert!(r2.is_err());
}

#[test]
fn note_html_digest_is_exact() {
    let unit = FeedItemWithComments {
        feed_item: ChatterFeedItemRecord {
            id: "F1".to_string(),
            parent_id: "001A".to_string(),
            body: "<p>hello</p>".to_string(),
            created_by_id: "U1".to_string(),
            created_date: "2023-01-02T03:04:05.000Z".to_string(),
        },
        comments: vec![ChatterCommentRecord {
            id: "C1".to_string(),
            feed_item_id: "F1".to_string(),
            comment_body: "fine".to_string(),
            created_by_id: "U2".to_string(),
            created_date: "2023-01-03T00:00:00.000Z".to_string(),
            related_record_id: "".to_string(),
        }],
        feed_item_attachment_ids: vec![],
        comment_attachments: StrMap::new(),
    };
    let mut users = StrMap::new();
    users.insert(
        "U1".to_string(),
        UserRecord {
            id: "U1".to_string(),
            name: "Ada".to_string(),
            username: "ada@example.com".to_string(),
        },
    );
    let html = generate_chatter_note_html(&unit, &users);
    assert!(html.starts_with(
        "<p style=\"font-size: 10px; color: #999; margin: 0 0 12px 0;\">Chatter post</p>"
    ));
    assert!(html.contains("2023-01-02 03:04:05 - Ada (ada@example.com)"));
    assert!(html.contains("Comments (1)"));
    // the commenting user is unknown: the raw id is shown
    assert!(html.contains("2023-01-03 00:00:00 - U2"));
    assert!(html.contains("fine"));
    assert!(html.ends_with(
        "<p style=\"font-size: 10px; color: #999; margin: 0;\">Salesforce FeedItem ID: F1</p>"
    ));
}

#[test]
fn reused_and_failed_files_are_accounted() {
    let events = vec![
        FileEvent::Reused("A".to_string()),
        FileEvent::Failed,
        FileEvent::Uploaded("B".to_string()),
    ];
    let (uploaded, ids) = unit_note_plan(&events);
    assert_eq!(uploaded, 1);
    assert_eq!(ids, vec!["A".to_string(), "B".to_string()]);
}

#[test]
fn error_rows_carry_the_reason() {
    let mut run = MigrationRun::new_file_mapping();
    run.record_file_error("001", "companies", "001A", "HS1", "url", 2, "note creation failed");
    assert_eq!(run.rows[0][7], "error");
    assert_eq!(run.rows[0][8], "note creation failed");
    let (_, summaries) = run.finish();
    assert_eq!(summaries[0].error_count, 1);
}

#[test]
fn chatter_audit_log_prints_header_and_rows() {
    let mut run = MigrationRun::new_chatter();
    run.record_chatter_outcome(
        "001",
        "companies",
        "001A",
        "HS1",
        "url",
        1,
        1,
        NoteStatus::Success,
    );
    let (text, _) = run.finish();
    assert_eq!(
        text,
        "Salesforce Record ID,HubSpot Object,HubSpot Record ID,HubSpot Record URL,\
         Feed Items Count,Notes Created,Status,Reason\n001A,companies,HS1,url,1,1,success,\n"
    );
}

#[test]
fn summaries_fix_the_object_label_at_first_observation() {
    let mut run = MigrationRun::new_file_mapping();
    run.record_file_skips("001", "companies", &vec!["001A".to_string()]);
    run.record_file_success("001", "other", "001B", "HS", "url", 0, 0, false);
    let (_, summaries) = run.finish();
    assert_eq!(summaries.len(), 1);
    assert_eq!(summaries[0].hubspot_object, "companies");
    assert_eq!(summaries[0].skipped_count, 1);
    assert_eq!(summaries[0].success_count, 1);
}

#[test]
fn empty_id_lists_plan_no_batches() {
    let batches = plan_batches(&Vec::new(), 100);
    assert_eq!(batches.len(), 0);
}

#[test]
fn file_units_fail_without_a_note() {
    // a unit whose note was not created is an error, per the tri-state
    // rules' file-unit counterpart
    assert!(matches!(file_unit_status(true), NoteStatus::Success));
    assert!(matches!(file_unit_status(false), NoteStatus::Error));
    let mut run = MigrationRun::new_file_mapping();
    run.record_file_error(
        "001",
        "companies",
        "001A",
        "HS1",
        "url",
        1,
        "no attachments available",
    );
    assert_eq!(run.rows[0][7], "error");
    let (_, summaries) = run.finish();
    assert_eq!(summaries[0].error_count, 1);
    assert_eq!(summaries[0].success_count, 0);
}

#[test]
fn attachment_ids_join_with_semicolons() {
    assert_eq!(join_attachment_ids(&Vec::new()), "");
    assert_eq!(join_attachment_ids(&vec!["A".to_string()]), "A");
    assert_eq!(
        join_attachment_ids(&vec!["A".to_string(), "B".to_string(), "C".to_string()]),
        "A;B;C"
    );
}
