use korea_cli::freq::FreqTable;
use korea_cli::signals::{
    build_clusters, category_label, count_frequencies, find_discriminating_signals, values_of, Category,
    ElementFrequencies, JsVarInfo, OptionSignal, PageSignals,
};

fn empty_signals() -> PageSignals {
    PageSignals {
        file_size_bytes: 0,
        tag_counts: vec![],
        ids: vec![],
        names: vec![],
        classes: vec![],
        data_attrs: vec![],
        th_texts: vec![],
        options: vec![],
        js_vars: vec![],
        ajax_urls: vec![],
        json_ld_types: vec![],
        script_types: vec![],
        meta_tags: vec![],
        link_rels: vec![],
        title: String::new(),
    }
}

fn js_var(name: &str, value_type: &str, size: usize) -> (String, JsVarInfo) {
    (name.to_string(), JsVarInfo { value_type: value_type.to_string(), size, value_preview: None })
}

fn select(id: &str, count: usize) -> OptionSignal {
    OptionSignal { select_id: id.to_string(), count, values: vec![], texts: vec![] }
}

fn table(entries: &[(&str, usize)]) -> FreqTable {
    FreqTable { entries: entries.iter().map(|(k, c)| (k.to_string(), *c)).collect() }
}

fn empty_frequencies() -> ElementFrequencies {
    ElementFrequencies {
        ids: FreqTable::new(),
        names: FreqTable::new(),
        classes: FreqTable::new(),
        data_attr_keys: FreqTable::new(),
        th_texts: FreqTable::new(),
        js_var_names: FreqTable::new(),
        js_var_types: FreqTable::new(),
        ajax_urls: FreqTable::new(),
        json_ld_types: FreqTable::new(),
        script_types: FreqTable::new(),
        meta_keys: FreqTable::new(),
        link_rels: FreqTable::new(),
        select_ids: FreqTable::new(),
    }
}

#[test]
fn test_count_frequencies() {
    let mut s1 = empty_signals();
    s1.ids = vec!["alpha".to_string(), "beta".to_string()];
    s1.classes = vec!["common".to_string()];
    s1.js_vars.push(js_var("swaggerJson", "object", 100));
    s1.options.push(select("sel1", 2));

    let mut s2 = empty_signals();
    s2.ids = vec!["alpha".to_string(), "gamma".to_string()];
    s2.classes = vec!["common".to_string(), "special".to_string()];
    s2.js_vars.push(js_var("tableData", "array", 50));
    s2.th_texts = vec!["이름".to_string()];

    let mut s3 = empty_signals();
    s3.ids = vec!["beta".to_string()];
    s3.classes = vec!["common".to_string()];
    s3.js_vars.push(js_var("swaggerJson", "object", 200));
    s3.js_vars.push(js_var("tableData", "array", 30));
    s3.options.push(select("sel1", 3));

    let all = vec![
        ("file1.html".to_string(), s1),
        ("file2.html".to_string(), s2),
        ("file3.html".to_string(), s3),
    ];
    let freq = count_frequencies(&all);

    assert_eq!(freq.ids.get("alpha"), 2);
    assert_eq!(freq.ids.get("beta"), 2);
    assert_eq!(freq.ids.get("gamma"), 1);
    assert_eq!(freq.classes.get("common"), 3);
    assert_eq!(freq.classes.get("special"), 1);
    assert_eq!(freq.js_var_names.get("swaggerJson"), 2);
    assert_eq!(freq.js_var_names.get("tableData"), 2);
    assert_eq!(freq.js_var_types.get("swaggerJson:object"), 2);
    assert_eq!(freq.js_var_types.get("tableData:array"), 2);
    assert_eq!(freq.th_texts.get("이름"), 1);
    assert_eq!(freq.select_ids.get("sel1"), 2);
}

#[test]
fn count_frequencies_counts_a_page_once_and_keeps_keys_sorted() {
    let mut s = empty_signals();
    s.ids = vec!["zeta".to_string(), "alpha".to_string(), "zeta".to_string()];
    let all = vec![("only.html".to_string(), s)];
    let freq = count_frequencies(&all);
    assert_eq!(freq.ids.entries, vec![("alpha".to_string(), 1), ("zeta".to_string(), 1)]);
    assert_eq!(freq.ids.get("missing"), 0);
    assert!(freq.classes.entries.is_empty());
}

#[test]
fn test_find_discriminating_signals() {
    let total = 100;
    let mut freq = empty_frequencies();
    freq.ids = table(&[("commonId", 100), ("rareId", 5)]);
    freq.classes = table(&[("uniqueClass", 1), ("universalClass", 100)]);
    freq.js_var_types = table(&[("config:object", 80)]);

    let result = find_discriminating_signals(&freq, total);
    let percentage = |count: usize| count as f64 * 100.0 / total as f64;

    assert!(!result.iter().any(|s| s.signal == "commonId"), "commonId (count==total) should be excluded");
    assert!(!result.iter().any(|s| s.signal == "universalClass"), "universalClass (count==total) should be excluded");
    assert!(result.iter().any(|s| s.signal == "rareId"), "rareId should be included");
    assert!(result.iter().any(|s| s.signal == "uniqueClass"), "uniqueClass should be included");
    assert!(result.iter().any(|s| s.signal == "config:object"), "config:object should be included");

    assert_eq!(result[0].signal, "config:object");
    assert_eq!(result[0].count, 80);
    assert!((percentage(result[0].count) - 80.0).abs() < 0.01);

    assert_eq!(result[1].signal, "rareId");
    assert_eq!(result[1].count, 5);

    assert_eq!(result[2].signal, "uniqueClass");
    assert_eq!(result[2].count, 1);
    assert!((percentage(result[2].count) - 1.0).abs() < 0.01);
}

#[test]
fn discriminating_signals_name_their_category_and_drop_zero_counts() {
    let mut freq = empty_frequencies();
    freq.names = table(&[("gone", 0), ("kept", 7)]);
    let result = find_discriminating_signals(&freq, 10);
    assert_eq!(result.len(), 1);
    assert_eq!(result[0].category, "names");
    assert_eq!(result[0].signal, "kept");
}

#[test]
fn freq_table_bump_inserts_in_order() {
    let mut t = FreqTable::new();
    t.bump(&"b".to_string());
    t.bump(&"a".to_string());
    t.bump(&"b".to_string());
    assert_eq!(t.entries, vec![("a".to_string(), 1), ("b".to_string(), 2)]);
    assert_eq!(t.get("b"), 2);
}

#[test]
fn values_of_formats_script_variables_with_their_type() {
    let mut s = empty_signals();
    s.js_vars.push(js_var("swaggerJson", "object", 10));
    assert_eq!(values_of(&s, Category::JsVarTypes), vec!["swaggerJson:object".to_string()]);
    assert_eq!(values_of(&s, Category::JsVarNames), vec!["swaggerJson".to_string()]);
    assert_eq!(category_label(Category::SelectIds), "select_ids");
}

#[test]
fn build_clusters_groups_pages_by_fingerprint() {
    let mut all = Vec::new();
    for i in 0..12 {
        let mut s = empty_signals();
        s.js_vars.push(js_var("swaggerJson", "object", 10));
        if i < 4 {
            s.js_vars.push(js_var("tableData", "array", 5));
        }
        all.push((format!("page{i:02}.html"), s));
    }
    let mut other = empty_signals();
    other.js_vars.push(js_var("misc", "string", 1));
    all.push(("page99.html".to_string(), other));

    let freq = count_frequencies(&all);
    let clusters = build_clusters(&freq, &all, 100);
    assert_eq!(clusters.len(), 2);
    assert_eq!(clusters[0].name, "swaggerJson:object");
    assert_eq!(clusters[0].count, 12);
    assert_eq!(clusters[0].defining_signals, vec!["swaggerJson:object".to_string()]);
    assert_eq!(
        clusters[0].sample_files,
        vec!["page00.html".to_string(), "page01.html".to_string(), "page02.html".to_string()]
    );
    assert_eq!(clusters[1].name, "(none)");
    assert_eq!(clusters[1].count, 1);
    assert_eq!(clusters[1].sample_files, vec!["page99.html".to_string()]);
}

#[test]
fn clusters_partition_the_pages() {
    let mut all = Vec::new();
    for i in 0..40 {
        let mut s = empty_signals();
        s.js_vars.push(js_var("swaggerJson", "object", 10));
        if i % 3 == 0 {
            s.js_vars.push(js_var("tableData", "array", 5));
        }
        if i % 5 == 0 {
            s.js_vars.push(js_var("gridRows", "array", 2));
        }
        all.push((format!("p{i:02}.html"), s));
    }
    let freq = count_frequencies(&all);
    let clusters = build_clusters(&freq, &all, 100);
    assert_eq!(clusters.len(), 2);
    assert_eq!(clusters[0].count, 26);
    assert_eq!(clusters[1].name, "swaggerJson:object+tableData:array");
    let total: usize = clusters.iter().map(|c| c.count).sum();
    assert_eq!(total, all.len());
    for (i, a) in clusters.iter().enumerate() {
        assert!(a.count > 0 && a.sample_files.len() <= 3);
        for b in clusters.iter().skip(i + 1) {
            assert_ne!(a.name, b.name);
            assert!(a.count >= b.count);
        }
    }
}
