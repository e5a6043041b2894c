use k_download::kodansha::epub::VolumeArchive;
use k_download::kodansha::page::RemotePage;
use k_download::kodansha::pipeline::{FetchedPage, PipelineError, VolumePipeline};
use k_download::Volume;

fn volume(id: u16, page_count: u16) -> Volume {
    Volume {
        series_name: "Series".to_string(),
        volume_name: format!("Volume {}", id),
        volume_number: 1,
        page_count,
        description: "A description".to_string(),
        id,
        series_id: 7,
    }
}

fn listing(comic_id: usize, page_count: u16) -> Vec<RemotePage> {
    (1..=(page_count as usize + 1)).map(|page_number| RemotePage { page_number, comic_id }).collect()
}

fn image_bytes(seed: u8) -> Vec<u8> {
    (0..64u32).map(|i| (i as u8).wrapping_mul(31).wrapping_add(seed)).collect()
}

/// A volume with no content pages yields an archive holding only the cover,
/// and generating it succeeds.
#[test]
fn cover_only_volume_finishes() {
    let mut pipeline = VolumePipeline::new(&volume(1, 0), 10).unwrap();
    pipeline.pages_listed(listing(1, 0)).unwrap();

    let batch = pipeline.next_batch();
    assert_eq!(batch.len(), 1);
    assert_eq!(batch[0].page_number, 1);
    pipeline.on_cover(&image_bytes(1)).unwrap();

    assert!(pipeline.next_batch().is_empty());
    let bytes = pipeline.finish().unwrap();
    assert!(bytes.len() > 2);
    assert_eq!(&bytes[0..2], b"PK");
}

/// 23 content pages with batches of 10 give batches of 10, 10 and 3, and
/// the three progress reports are 43, 87 and 100 percent.
#[test]
fn batch_sizes_and_progress_reports() {
    let mut pipeline = VolumePipeline::new(&volume(5, 23), 10).unwrap();
    pipeline.pages_listed(listing(5, 23)).unwrap();
    pipeline.on_cover(&image_bytes(0)).unwrap();

    let mut batch_sizes = Vec::new();
    let mut reports = Vec::new();
    loop {
        let batch = pipeline.next_batch();
        if batch.is_empty() {
            break;
        }
        batch_sizes.push(batch.len());
        // Hand the outcomes back in reversed completion order: the reading
        // order must still come out ascending.
        let mut results: Vec<FetchedPage> = batch
            .iter()
            .map(|page| FetchedPage {
                index: page.page_number - 1,
                bytes: Some(image_bytes(page.page_number as u8)),
            })
            .collect();
        results.reverse();
        let report = pipeline.on_batch(results).unwrap();
        reports.push(report);
    }

    assert_eq!(batch_sizes, vec![10, 10, 3]);
    assert_eq!(reports, vec![(5, 43), (5, 87), (5, 100)]);

    let bytes = pipeline.finish().unwrap();
    assert_eq!(&bytes[0..2], b"PK");
}

/// Progress reports never decrease, and the last one is 100.
#[test]
fn progress_is_monotone() {
    let mut pipeline = VolumePipeline::new(&volume(9, 7), 2).unwrap();
    pipeline.pages_listed(listing(9, 7)).unwrap();
    pipeline.on_cover(&image_bytes(0)).unwrap();

    let mut last: u8 = 0;
    let mut reports = Vec::new();
    loop {
        let batch = pipeline.next_batch();
        if batch.is_empty() {
            break;
        }
        let results: Vec<FetchedPage> = batch
            .iter()
            .map(|page| FetchedPage {
                index: page.page_number - 1,
                bytes: Some(image_bytes(3)),
            })
            .collect();
        let (id, percent) = pipeline.on_batch(results).unwrap();
        assert_eq!(id, 9);
        assert!(percent >= last);
        last = percent;
        reports.push(percent);
    }
    assert_eq!(last, 100);
    assert_eq!(reports.len(), 4);
}

/// One failed page fetch fails the whole volume: no archive is produced for
/// it, while an independent volume in the same run completes normally.
#[test]
fn failed_fetch_fails_only_its_volume() {
    let mut failing = VolumePipeline::new(&volume(2, 23), 10).unwrap();
    failing.pages_listed(listing(2, 23)).unwrap();
    failing.on_cover(&image_bytes(0)).unwrap();

    let mut healthy = VolumePipeline::new(&volume(3, 4), 10).unwrap();
    healthy.pages_listed(listing(3, 4)).unwrap();
    healthy.on_cover(&image_bytes(0)).unwrap();

    // First batch of the failing volume succeeds.
    let batch = failing.next_batch();
    let results: Vec<FetchedPage> = batch
        .iter()
        .map(|page| FetchedPage { index: page.page_number - 1, bytes: Some(image_bytes(2)) })
        .collect();
    failing.on_batch(results).unwrap();

    // One page of the second batch comes back empty-handed.
    let batch = failing.next_batch();
    let mut results: Vec<FetchedPage> = batch
        .iter()
        .map(|page| FetchedPage { index: page.page_number - 1, bytes: Some(image_bytes(2)) })
        .collect();
    results[4].bytes = None;
    let err = failing.on_batch(results).unwrap_err();
    assert_eq!(err, PipelineError::Fetch);
    assert!(failing.is_failed());

    // The sibling volume is untouched by the failure.
    let results: Vec<FetchedPage> = healthy
        .next_batch()
        .iter()
        .map(|page| FetchedPage { index: page.page_number - 1, bytes: Some(image_bytes(7)) })
        .collect();
    let report = healthy.on_batch(results).unwrap();
    assert_eq!(report, (3, 100));
    assert_eq!(&healthy.finish().unwrap()[0..2], b"PK");
}

/// A listing that does not cover every page once, in order, is rejected
/// with a listing error.
#[test]
fn malformed_listing_is_rejected() {
    let mut pipeline = VolumePipeline::new(&volume(4, 3), 10).unwrap();
    let err = pipeline.pages_listed(vec![RemotePage { page_number: 2, comic_id: 4 }]).unwrap_err();
    assert_eq!(err, PipelineError::Listing);
    assert!(pipeline.is_failed());
}

/// The names of an archive's members, in the order its table of contents
/// lists them.
fn zip_entry_names(bytes: &[u8]) -> Vec<String> {
    let mut names = Vec::new();
    let mut i: usize = 0;
    while i + 46 <= bytes.len() {
        if bytes[i..i + 4] == [0x50, 0x4b, 0x01, 0x02] {
            let name_len = u16::from_le_bytes([bytes[i + 28], bytes[i + 29]]) as usize;
            let extra_len = u16::from_le_bytes([bytes[i + 30], bytes[i + 31]]) as usize;
            let comment_len = u16::from_le_bytes([bytes[i + 32], bytes[i + 33]]) as usize;
            if i + 46 + name_len <= bytes.len() {
                names.push(String::from_utf8_lossy(&bytes[i + 46..i + 46 + name_len]).to_string());
            }
            i += 46 + name_len + extra_len + comment_len;
        } else {
            i += 1;
        }
    }
    names
}

fn markup_pages(bytes: &[u8]) -> Vec<String> {
    zip_entry_names(bytes)
        .into_iter()
        .filter(|name| name.starts_with("OEBPS/page-") && name.ends_with(".xhtml"))
        .collect()
}

fn run_to_bytes(id: u16, page_count: u16, batch_size: u16, seed: u8) -> Vec<u8> {
    let mut pipeline = VolumePipeline::new(&volume(id, page_count), batch_size).unwrap();
    pipeline.pages_listed(listing(id as usize, page_count)).unwrap();
    pipeline.on_cover(&image_bytes(seed)).unwrap();
    loop {
        let batch = pipeline.next_batch();
        if batch.is_empty() {
            break;
        }
        let mut results: Vec<FetchedPage> = batch
            .iter()
            .map(|page| FetchedPage {
                index: page.page_number - 1,
                bytes: Some(image_bytes(seed.wrapping_add(page.page_number as u8))),
            })
            .collect();
        results.reverse();
        pipeline.on_batch(results).unwrap();
    }
    pipeline.finish().unwrap()
}

/// Whatever order the fetches completed in, the archive's markup entries
/// stand in ascending page order.
#[test]
fn archive_entries_are_ascending_for_any_completion_order() {
    let bytes = run_to_bytes(11, 4, 2, 50);
    let expected: Vec<String> = (0..=4).map(|k| format!("OEBPS/page-{}.xhtml", k)).collect();
    assert_eq!(markup_pages(&bytes), expected);
}

/// Two volumes assembled with their steps interleaved in time end with
/// exactly the member structure each has when it runs alone: their
/// archives never mix.
#[test]
fn interleaved_volumes_stay_isolated() {
    let alone_names = zip_entry_names(&run_to_bytes(11, 4, 2, 50));

    let mut first = VolumePipeline::new(&volume(11, 4), 2).unwrap();
    let mut second = VolumePipeline::new(&volume(12, 6), 3).unwrap();
    first.pages_listed(listing(11, 4)).unwrap();
    second.pages_listed(listing(12, 6)).unwrap();
    first.on_cover(&image_bytes(50)).unwrap();
    second.on_cover(&image_bytes(99)).unwrap();
    loop {
        let batch_a = first.next_batch();
        let batch_b = second.next_batch();
        if batch_a.is_empty() && batch_b.is_empty() {
            break;
        }
        if !batch_a.is_empty() {
            let mut results: Vec<FetchedPage> = batch_a
                .iter()
                .map(|page| FetchedPage {
                    index: page.page_number - 1,
                    bytes: Some(image_bytes(50u8.wrapping_add(page.page_number as u8))),
                })
                .collect();
            results.reverse();
            first.on_batch(results).unwrap();
        }
        if !batch_b.is_empty() {
            let results: Vec<FetchedPage> = batch_b
                .iter()
                .map(|page| FetchedPage {
                    index: page.page_number - 1,
                    bytes: Some(image_bytes(99)),
                })
                .collect();
            second.on_batch(results).unwrap();
        }
    }
    let first_names = zip_entry_names(&first.finish().unwrap());
    let second_names = zip_entry_names(&second.finish().unwrap());

    assert_eq!(first_names, alone_names);
    let expected_second: Vec<String> =
        (0..=6).map(|k| format!("OEBPS/page-{}.xhtml", k)).collect();
    assert_eq!(
        second_names
            .iter()
            .filter(|n| n.starts_with("OEBPS/page-") && n.ends_with(".xhtml"))
            .cloned()
            .collect::<Vec<String>>(),
        expected_second
    );
}

/// The archive takes each path once: a second write to the same page is
/// the one rejection, and finishing afterwards still succeeds.
#[test]
fn archive_rejects_a_duplicate_resource() {
    let mut archive = VolumeArchive::new("Title", "About").unwrap();
    archive.add_cover_image(&image_bytes(1)).unwrap();
    assert!(archive.add_cover_image(&image_bytes(1)).is_err());
    archive.add_resource(1, &image_bytes(2)).unwrap();
    assert!(archive.add_resource(1, &image_bytes(3)).is_err());
    archive.add_content_entry(0).unwrap();
    archive.add_content_entry(1).unwrap();
    let bytes = archive.generate().unwrap();
    assert_eq!(&bytes[0..2], b"PK");
}
