use anorak::client::api::ApiItem;
use anorak::client::model::{compute_view, title_matches, SortKey, SortSpec};

fn item(title: &str, seeders: u32, size: u64, date: i64) -> ApiItem {
    ApiItem {
        title: title.into(),
        guid: String::new(),
        magnet: "magnet:?xt=urn:btih:x".into(),
        category: String::new(),
        seeders,
        peers: 0,
        size,
        size_format: String::new(),
        date: Some(date),
        date_format: String::new(),
        already_added: false,
    }
}

/// The rows a filter keeps: a title filter plus optional size bounds in MiB.
fn kept(items: &[ApiItem], names: &[String], name: &str, min_mb: Option<f64>, max_mb: Option<f64>) -> Vec<bool> {
    items
        .iter()
        .zip(names)
        .map(|(it, n)| {
            title_matches(name, n)
                && min_mb.map_or(true, |m| !((it.size as f64) < m * 1024.0 * 1024.0))
                && max_mb.map_or(true, |m| !((it.size as f64) > m * 1024.0 * 1024.0))
        })
        .collect()
}

#[test]
fn filter_and_sort() {
    let items = vec![
        item("B 1080p", 5, 2 << 30, 3),
        item("a 720p", 50, 1 << 20, 1),
        item("C 1080p", 5, 3 << 30, 2),
    ];
    let names: Vec<String> = items.iter().map(|i| i.title.to_lowercase()).collect();
    let all = kept(&items, &names, "", None, None);
    assert_eq!(compute_view(&items, &names, &all, SortSpec::default_order(), None), vec![1, 0, 2]);
    let size_desc = SortSpec { key: SortKey::Size, asc: false };
    assert_eq!(
        compute_view(&items, &names, &all, SortSpec::default_order(), Some(size_desc)),
        vec![1, 2, 0]
    );
    let f = kept(&items, &names, "1080", None, None);
    let name_asc = SortSpec { key: SortKey::Name, asc: true };
    assert_eq!(compute_view(&items, &names, &f, name_asc, None), vec![0, 2]);
    let f = kept(&items, &names, "", Some(2048.0), Some(2048.0));
    assert_eq!(compute_view(&items, &names, &f, SortSpec::default_order(), None), vec![0]);
}
