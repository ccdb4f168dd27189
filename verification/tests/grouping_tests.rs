use lightning_explorer::attributes::AttributeMap;
use lightning_explorer::config::{Config, GroupingConfig, IgnoredConfig, ToleranceConfig};
use lightning_explorer::experiment_grouping::{
    count_different_parameters, filter_parameters, find_similar_groups, group_accepts,
    group_versions, list_contains, SimilarGroups,
};
use lightning_explorer::hashing::compute_params_hash;
use lightning_explorer::models::{ExperimentGroup, VersionData};
use lightning_explorer::parameter_value::{BasicParameterValue, FloatValue, ParameterValue};

fn float(x: f64) -> ParameterValue {
    ParameterValue::Basic(BasicParameterValue::Float(FloatValue::new(x.to_bits())))
}

fn text(s: &str) -> ParameterValue {
    ParameterValue::Basic(BasicParameterValue::String(s.to_string()))
}

fn whole(i: i64) -> ParameterValue {
    ParameterValue::Basic(BasicParameterValue::Int(i))
}

fn map(entries: Vec<(&str, ParameterValue)>) -> AttributeMap {
    let mut m = AttributeMap::new();
    for (k, v) in entries {
        m.insert(k.to_string(), v);
    }
    m
}

fn names(list: &[&str]) -> Vec<String> {
    list.iter().map(|s| s.to_string()).collect()
}

fn create_test_config() -> Config {
    Config {
        general: Default::default(),
        ignored_parameters: IgnoredConfig { parameters: names(&["fold", "devices"]) },
        tolerance: ToleranceConfig {
            float_tolerance: 0.001f64.to_bits(),
            int_tolerance: 0,
            string_case_sensitive: false,
        },
        grouping: GroupingConfig {
            group_by_all_parameters: true,
            grouping_parameters: None,
            similarity_threshold: 2,
            main_key: None,
        },
        diff: Default::default(),
        tui: Default::default(),
        keybindings: Default::default(),
        test_script: Default::default(),
    }
}

fn version(version_num: u32, hparams: AttributeMap) -> VersionData {
    VersionData { version_num, path: format!("logs/version_{}", version_num), hparams }
}

fn numbers(group: &ExperimentGroup) -> Vec<u32> {
    group.member_versions.iter().map(|v| v.version_num).collect()
}

fn similar<'a>(table: &'a [SimilarGroups], id: &str) -> Option<&'a Vec<String>> {
    table.iter().find(|e| e.group_id == id).map(|e| &e.similar)
}

#[test]
fn test_nested_map_flattening() {
    assert!(true);
}

#[test]
fn test_filter_parameters() {
    let hparams = map(vec![
        ("model", text("cnn")),
        ("fold", whole(1)),
        ("devices", whole(2)),
        ("lr", float(0.001)),
    ]);

    let ignored_params = names(&["fold", "devices"]);
    let grouping_params: Option<Vec<String>> = None;

    let filtered = filter_parameters(&hparams, &ignored_params, &grouping_params);

    assert!(filtered.contains_key("model"));
    assert!(filtered.contains_key("lr"));
    assert!(!filtered.contains_key("fold"));
    assert!(!filtered.contains_key("devices"));
}

#[test]
fn test_filter_nested_parameters() {
    let hparams = map(vec![
        ("model", text("cnn")),
        ("trainer-max_epochs", whole(100)),
        ("trainer-devices", whole(2)),
        ("config-optimizer", ParameterValue::List(vec![text("adam"), text("sgd")])),
        ("config-fold", whole(3)),
    ]);

    let ignored_params = names(&["trainer-devices", "config-fold"]);
    let grouping_params: Option<Vec<String>> = None;

    let filtered = filter_parameters(&hparams, &ignored_params, &grouping_params);

    assert!(filtered.contains_key("model"));
    assert!(filtered.contains_key("trainer-max_epochs"));
    assert!(filtered.contains_key("config-optimizer"));
    assert!(!filtered.contains_key("trainer-devices"));
    assert!(!filtered.contains_key("config-fold"));
}

#[test]
fn test_filter_with_grouping_parameters() {
    let hparams = map(vec![
        ("model", text("cnn")),
        ("lr", float(0.001)),
        ("batch_size", whole(32)),
        ("fold", whole(1)),
    ]);

    let ignored_params = names(&["fold"]);
    let grouping_params = Some(names(&["model", "lr"]));

    let filtered = filter_parameters(&hparams, &ignored_params, &grouping_params);

    assert!(filtered.contains_key("model"));
    assert!(filtered.contains_key("lr"));
    assert!(!filtered.contains_key("batch_size"));
    assert!(!filtered.contains_key("fold"));
}

#[test]
fn filter_keeps_values_and_drops_what_is_both_allowed_and_ignored() {
    let hparams = map(vec![("model", text("cnn")), ("lr", float(0.5)), ("fold", whole(1))]);
    let filtered = filter_parameters(&hparams, &names(&["fold"]), &Some(names(&["fold", "lr", "absent"])));
    assert_eq!(filtered.len(), 1);
    assert_eq!(filtered.get("lr"), Some(&float(0.5)));
    assert!(!filtered.contains_key("fold"));
    assert!(!filtered.contains_key("absent"));

    let all = filter_parameters(&hparams, &vec![], &None);
    assert_eq!(all, hparams);
    let none = filter_parameters(&hparams, &vec![], &Some(vec![]));
    assert!(none.is_empty());
}

#[test]
fn test_count_different_parameters_nested() {
    let config = create_test_config();
    let strict_config = Config {
        tolerance: ToleranceConfig {
            float_tolerance: 0.0f64.to_bits(),
            int_tolerance: 0,
            string_case_sensitive: false,
        },
        ..config
    };

    let params1 = map(vec![
        ("model", text("cnn")),
        ("trainer-lr", float(0.001)),
        ("trainer-epochs", whole(100)),
    ]);
    let params2 = map(vec![
        ("model", text("cnn")),
        ("trainer-lr", float(0.002)),
        ("trainer-epochs", whole(100)),
    ]);

    let different_params = count_different_parameters(&params1, &params2, &strict_config);

    assert_eq!(different_params, 1, "Only 'trainer-lr' parameter should be different");
}

#[test]
fn the_difference_count_adds_unequal_and_missing_on_both_sides() {
    let config = create_test_config();
    let a = map(vec![("model", text("cnn")), ("lr", float(0.001)), ("batch_size", whole(32))]);
    let b = map(vec![
        ("model", text("CNN")),
        ("lr", float(0.0015)),
        ("epochs", whole(100)),
        ("seed", whole(1)),
    ]);
    // model equal without case, lr within tolerance; batch_size only in a; epochs, seed only in b.
    assert_eq!(count_different_parameters(&a, &b, &config), 3);
    assert_eq!(count_different_parameters(&b, &a, &config), 3);
    assert_eq!(count_different_parameters(&a, &a, &config), 0);
    let empty = AttributeMap::new();
    assert_eq!(count_different_parameters(&a, &empty, &config), 3);
    assert_eq!(count_different_parameters(&empty, &a, &config), 3);
    assert_eq!(count_different_parameters(&empty, &empty, &config), 0);
}

#[test]
fn a_value_that_is_not_a_number_differs_from_nothing_of_its_kind() {
    let config = create_test_config();
    let a = map(vec![("x", float(f64::NAN))]);
    let b = map(vec![("x", float(f64::NAN))]);
    let c = map(vec![("x", float(0.0))]);
    assert_eq!(count_different_parameters(&a, &b, &config), 0);
    assert_eq!(count_different_parameters(&a, &c, &config), 1);
}

#[test]
fn test_compute_params_hash() {
    let config = create_test_config();
    let params1 = map(vec![("model", text("cnn")), ("lr", float(0.001)), ("batch_size", whole(32))]);
    let params2 = map(vec![("batch_size", whole(32)), ("model", text("cnn")), ("lr", float(0.001))]);

    let hash1 = compute_params_hash(&params1, &config);
    let hash2 = compute_params_hash(&params2, &config);

    assert_eq!(hash1, hash2);
}

#[test]
fn the_hash_is_lower_case_hexadecimal() {
    let config = create_test_config();
    let hash = compute_params_hash(&map(vec![("model", text("cnn"))]), &config);
    assert!(!hash.is_empty() && hash.len() <= 16);
    assert!(hash.chars().all(|c| c.is_ascii_digit() || ('a'..='f').contains(&c)));
    assert_eq!(u64::from_str_radix(&hash, 16).map(|n| format!("{:x}", n)), Ok(hash));
}

#[test]
fn the_hash_does_not_depend_on_the_order_of_insertion() {
    let config = create_test_config();
    let entries = vec![
        ("model", text("cnn")),
        ("lr", float(0.01)),
        ("batch_size", whole(32)),
        ("layers", ParameterValue::List(vec![whole(1), whole(2)])),
        ("bias", ParameterValue::Basic(BasicParameterValue::Bool(true))),
    ];
    let reference = compute_params_hash(&map(entries.clone()), &config);
    let mut rotated = entries.clone();
    for _ in 0..entries.len() {
        rotated.rotate_left(1);
        assert_eq!(compute_params_hash(&map(rotated.clone()), &config), reference);
    }
    let mut reversed = entries.clone();
    reversed.reverse();
    assert_eq!(compute_params_hash(&map(reversed), &config), reference);
}

#[test]
fn the_hash_tells_different_mappings_apart() {
    let config = create_test_config();
    let base = compute_params_hash(&map(vec![("model", text("cnn")), ("n", whole(1))]), &config);
    for other in [
        map(vec![("model", text("rnn")), ("n", whole(1))]),
        map(vec![("model", text("cnn")), ("n", whole(2))]),
        map(vec![("model", text("cnn"))]),
        map(vec![("model", text("cnn")), ("m", whole(1))]),
        map(vec![("model", text("cnn")), ("n", float(1.0))]),
        map(vec![("model", text("cnn")), ("n", ParameterValue::List(vec![whole(1)]))]),
        map(vec![("modeln", text("cnn"))]),
        AttributeMap::new(),
    ] {
        assert_ne!(compute_params_hash(&other, &config), base);
    }
}

#[test]
fn the_hash_forgets_what_the_tolerance_forgets() {
    let mut config = create_test_config();
    config.tolerance.int_tolerance = 4;
    let hash = |m: AttributeMap, c: &Config| compute_params_hash(&m, c);
    // Texts without case.
    assert_eq!(hash(map(vec![("m", text("CNN"))]), &config), hash(map(vec![("m", text("cnn"))]), &config));
    // Integers in one bucket of five: 5..=9 and -5..=-1.
    assert_eq!(hash(map(vec![("n", whole(5))]), &config), hash(map(vec![("n", whole(9))]), &config));
    assert_ne!(hash(map(vec![("n", whole(9))]), &config), hash(map(vec![("n", whole(10))]), &config));
    assert_eq!(hash(map(vec![("n", whole(-5))]), &config), hash(map(vec![("n", whole(-1))]), &config));
    assert_ne!(hash(map(vec![("n", whole(-1))]), &config), hash(map(vec![("n", whole(0))]), &config));
    assert_eq!(hash(map(vec![("n", whole(0))]), &config), hash(map(vec![("n", whole(4))]), &config));
    // Numbers at the same multiple of the tolerance.
    assert_eq!(
        hash(map(vec![("lr", float(0.0100))]), &config),
        hash(map(vec![("lr", float(0.0102))]), &config)
    );
    assert_ne!(
        hash(map(vec![("lr", float(0.010))]), &config),
        hash(map(vec![("lr", float(0.011))]), &config)
    );
    assert_eq!(
        hash(map(vec![("z", float(0.0))]), &config),
        hash(map(vec![("z", float(-0.0))]), &config)
    );
    // With case, texts differ.
    config.tolerance.string_case_sensitive = true;
    assert_ne!(hash(map(vec![("m", text("CNN"))]), &config), hash(map(vec![("m", text("cnn"))]), &config));
}

#[test]
fn the_hash_with_a_zero_tolerance_is_of_the_numbers_themselves() {
    let mut config = create_test_config();
    config.tolerance.float_tolerance = 0.0f64.to_bits();
    let a = compute_params_hash(&map(vec![("lr", float(0.001))]), &config);
    let b = compute_params_hash(&map(vec![("lr", float(0.001))]), &config);
    let c = compute_params_hash(&map(vec![("lr", float(0.0010000001))]), &config);
    assert_eq!(a, b);
    assert_ne!(a, c);
}

#[test]
fn the_hash_reads_only_the_allow_list_where_there_is_one() {
    let mut config = create_test_config();
    config.grouping.grouping_parameters = Some(names(&["model", "lr", "absent"]));
    let a = compute_params_hash(&map(vec![("model", text("cnn")), ("lr", float(0.5)), ("seed", whole(1))]), &config);
    let b = compute_params_hash(&map(vec![("model", text("cnn")), ("lr", float(0.5)), ("seed", whole(2))]), &config);
    let c = compute_params_hash(&map(vec![("model", text("rnn")), ("lr", float(0.5)), ("seed", whole(1))]), &config);
    assert_eq!(a, b);
    assert_ne!(a, c);
}

#[test]
fn list_contains_finds_a_name() {
    let list = names(&["fold", "devices"]);
    assert!(list_contains(&list, "fold"));
    assert!(list_contains(&list, "devices"));
    assert!(!list_contains(&list, "Fold"));
    assert!(!list_contains(&list, ""));
    assert!(!list_contains(&vec![], "fold"));
}

#[test]
fn without_an_allow_list_a_group_takes_a_run_that_differs_in_nothing() {
    let config = create_test_config();
    let base = map(vec![("model", text("cnn")), ("lr", float(0.001))]);
    assert!(group_accepts(&base, &map(vec![("model", text("CNN")), ("lr", float(0.0015))]), &config));
    assert!(!group_accepts(&base, &map(vec![("model", text("cnn")), ("lr", float(0.01))]), &config));
    assert!(!group_accepts(&base, &map(vec![("model", text("cnn"))]), &config));
    assert!(!group_accepts(
        &base,
        &map(vec![("model", text("cnn")), ("lr", float(0.001)), ("x", whole(1))]),
        &config
    ));
}

#[test]
fn with_an_allow_list_a_group_takes_a_run_that_has_its_allowed_attributes() {
    let mut config = create_test_config();
    config.grouping.grouping_parameters = Some(names(&["model", "lr"]));
    let base = map(vec![("model", text("cnn")), ("lr", float(0.001))]);
    // Values do not count.
    assert!(group_accepts(&base, &map(vec![("model", text("rnn")), ("lr", float(9.0))]), &config));
    // A run that lacks an allowed attribute of the group is not taken.
    assert!(!group_accepts(&base, &map(vec![("model", text("cnn"))]), &config));
    // What the group itself lacks is not asked of the run.
    let small = map(vec![("model", text("cnn"))]);
    assert!(group_accepts(&small, &map(vec![("model", text("x"))]), &config));
    assert!(group_accepts(&small, &map(vec![("model", text("x")), ("lr", float(1.0))]), &config));
    assert!(group_accepts(&AttributeMap::new(), &AttributeMap::new(), &config));
}

#[test]
fn every_run_is_in_exactly_one_group() {
    let config = create_test_config();
    let versions = vec![
        version(5, map(vec![("model", text("cnn")), ("lr", float(0.1))])),
        version(3, map(vec![("model", text("rnn")), ("lr", float(0.1))])),
        version(9, map(vec![("model", text("cnn")), ("lr", float(0.1))])),
        version(1, map(vec![("model", text("cnn")), ("lr", float(0.2))])),
        version(7, map(vec![("model", text("RNN")), ("lr", float(0.1005))])),
        version(2, map(vec![("model", text("cnn")), ("lr", float(0.1))])),
    ];
    let groups = group_versions(&config, versions).unwrap();
    let mut seen: Vec<u32> = groups.iter().flat_map(numbers).collect();
    seen.sort();
    assert_eq!(seen, vec![1, 2, 3, 5, 7, 9]);
    assert_eq!(groups.len(), 3);
    assert_eq!(numbers(&groups[0]), vec![2, 5, 9]);
    assert_eq!(numbers(&groups[1]), vec![3, 7]);
    assert_eq!(numbers(&groups[2]), vec![1]);
    for group in &groups {
        assert!(!group.member_versions.is_empty());
    }
}

#[test]
fn groups_come_largest_first_and_members_by_number() {
    let config = create_test_config();
    let versions = vec![
        version(4, map(vec![("m", text("a"))])),
        version(3, map(vec![("m", text("b"))])),
        version(2, map(vec![("m", text("b"))])),
        version(1, map(vec![("m", text("c"))])),
        version(0, map(vec![("m", text("b"))])),
    ];
    let groups = group_versions(&config, versions).unwrap();
    let sizes: Vec<usize> = groups.iter().map(|g| g.member_versions.len()).collect();
    assert_eq!(sizes, vec![3, 1, 1]);
    assert_eq!(numbers(&groups[0]), vec![0, 2, 3]);
    // Groups of one size keep the order in which they were founded: from the end of the list.
    assert_eq!(numbers(&groups[1]), vec![1]);
    assert_eq!(numbers(&groups[2]), vec![4]);
}

#[test]
fn runs_are_taken_from_the_end_of_the_list() {
    let mut config = create_test_config();
    config.tolerance.int_tolerance = 4;
    // Taken from the end: 8 founds a group, 4 joins it, 0 founds its own.
    let versions = vec![
        version(1, map(vec![("x", whole(0))])),
        version(2, map(vec![("x", whole(4))])),
        version(3, map(vec![("x", whole(8))])),
    ];
    let groups = group_versions(&config, versions).unwrap();
    assert_eq!(groups.len(), 2);
    assert_eq!(numbers(&groups[0]), vec![2, 3]);
    assert_eq!(groups[0].base_parameters, map(vec![("x", whole(8))]));
    assert_eq!(numbers(&groups[1]), vec![1]);
    assert_eq!(groups[1].base_parameters, map(vec![("x", whole(0))]));
}

#[test]
fn a_run_joins_the_first_group_that_takes_it() {
    let mut config = create_test_config();
    config.tolerance.int_tolerance = 4;
    // From the end: 0 founds A, 8 founds B, 4 is within tolerance of both and joins A.
    let versions = vec![
        version(3, map(vec![("x", whole(4))])),
        version(2, map(vec![("x", whole(8))])),
        version(1, map(vec![("x", whole(0))])),
    ];
    let groups = group_versions(&config, versions).unwrap();
    assert_eq!(groups.len(), 2);
    assert_eq!(numbers(&groups[0]), vec![1, 3]);
    assert_eq!(groups[0].base_parameters, map(vec![("x", whole(0))]));
    assert_eq!(numbers(&groups[1]), vec![2]);
}

#[test]
fn a_group_is_named_by_the_hash_of_its_founding_attributes() {
    let config = create_test_config();
    let a = map(vec![("model", text("cnn")), ("lr", float(0.1))]);
    let b = map(vec![("model", text("rnn"))]);
    let groups = group_versions(
        &config,
        vec![version(1, a.clone()), version(2, b.clone()), version(3, a.clone())],
    )
    .unwrap();
    assert_eq!(groups.len(), 2);
    assert_eq!(groups[0].group_id, compute_params_hash(&a, &config));
    assert_eq!(groups[0].base_parameters, a);
    assert_eq!(groups[1].group_id, compute_params_hash(&b, &config));
    assert_eq!(groups[1].base_parameters, b);
}

#[test]
fn no_runs_give_no_groups() {
    let config = create_test_config();
    assert!(group_versions(&config, vec![]).unwrap().is_empty());
    assert!(find_similar_groups(&vec![], &config).is_empty());
}

#[test]
fn widening_the_tolerance_can_move_a_run_between_groups() {
    // Processed from the end: x=0 founds A, x=10 founds B, then x=6.
    let runs = || {
        vec![
            version(3, map(vec![("x", whole(6))])),
            version(2, map(vec![("x", whole(10))])),
            version(1, map(vec![("x", whole(0))])),
        ]
    };
    let mut config = create_test_config();
    config.tolerance.int_tolerance = 4;
    let narrow = group_versions(&config, runs()).unwrap();
    assert_eq!(narrow.iter().map(numbers).collect::<Vec<_>>(), vec![vec![2, 3], vec![1]]);
    config.tolerance.int_tolerance = 6;
    let wide = group_versions(&config, runs()).unwrap();
    assert_eq!(wide.iter().map(numbers).collect::<Vec<_>>(), vec![vec![1, 3], vec![2]]);
}

#[test]
fn a_group_takes_under_a_wider_tolerance_what_it_took_under_a_narrower() {
    let base = map(vec![("x", whole(0)), ("lr", float(0.5))]);
    let runs = [
        map(vec![("x", whole(3)), ("lr", float(0.5))]),
        map(vec![("x", whole(0)), ("lr", float(0.7))]),
        map(vec![("x", whole(5)), ("lr", float(1.5))]),
    ];
    let steps = [(0i64, 0.0f64), (3, 0.0), (3, 0.25), (5, 0.25), (5, 1.0), (9, 2.0)];
    for (i, (narrow_int, narrow_float)) in steps.iter().enumerate() {
        for (wide_int, wide_float) in &steps[i..] {
            let mut narrow = create_test_config();
            narrow.tolerance.int_tolerance = *narrow_int;
            narrow.tolerance.float_tolerance = narrow_float.to_bits();
            let mut wide = create_test_config();
            wide.tolerance.int_tolerance = *wide_int;
            wide.tolerance.float_tolerance = wide_float.to_bits();
            for run in &runs {
                if group_accepts(&base, run, &narrow) {
                    assert!(group_accepts(&base, run, &wide));
                }
                assert!(
                    count_different_parameters(run, &base, &wide)
                        <= count_different_parameters(run, &base, &narrow)
                );
            }
        }
    }
}

#[test]
fn test_find_similar_groups1() {
    let config = create_test_config();

    let version1 = VersionData { path: "version_001".to_string(), version_num: 1, hparams: AttributeMap::new() };
    let version2 = VersionData { path: "version_002".to_string(), version_num: 2, hparams: AttributeMap::new() };
    let version3 = VersionData { path: "version_003".to_string(), version_num: 3, hparams: AttributeMap::new() };

    let mut group1 = ExperimentGroup {
        group_id: "group_1".to_string(),
        member_versions: vec![version1],
        base_parameters: AttributeMap::new(),
    };
    group1.base_parameters.insert("model".to_string(), text("cnn"));
    group1.base_parameters.insert("lr".to_string(), float(0.001));
    group1.base_parameters.insert("batch_size".to_string(), whole(32));

    let mut group2 = ExperimentGroup {
        group_id: "group_2".to_string(),
        member_versions: vec![version2],
        base_parameters: AttributeMap::new(),
    };
    group2.base_parameters.insert("model".to_string(), text("cnn"));
    group2.base_parameters.insert("lr".to_string(), float(0.001));
    group2.base_parameters.insert("batch_size".to_string(), whole(64));

    let mut group3 = ExperimentGroup {
        group_id: "group_3".to_string(),
        member_versions: vec![version3],
        base_parameters: AttributeMap::new(),
    };
    group3.base_parameters.insert("model".to_string(), text("rnn"));
    group3.base_parameters.insert("lr".to_string(), float(0.002));
    group3.base_parameters.insert("optimizer".to_string(), text("adam"));

    let groups = vec![group1, group2, group3];
    let similar_groups = find_similar_groups(&groups, &config);

    assert!(similar(&similar_groups, "group_1").is_some(), "Group 1 should have similar groups");
    let group1_similar = similar(&similar_groups, "group_1").unwrap();
    assert!(
        group1_similar.contains(&"group_2".to_string()),
        "Group 1 should be similar to Group 2"
    );

    if let Some(group3_similar) = similar(&similar_groups, "group_3") {
        assert!(group3_similar.is_empty(), "Group 3 should not be similar to any other group");
    }
}

fn group(id: &str, base: AttributeMap) -> ExperimentGroup {
    ExperimentGroup { group_id: id.to_string(), base_parameters: base, member_versions: vec![] }
}

#[test]
fn every_group_has_an_entry_and_none_lists_itself() {
    let config = create_test_config();
    let groups = vec![
        group("a", map(vec![("model", text("cnn")), ("n", whole(1))])),
        group("b", map(vec![("model", text("cnn")), ("n", whole(2))])),
        group("c", map(vec![("model", text("cnn")), ("n", whole(3)), ("p", whole(0)), ("q", whole(0))])),
        group("d", map(vec![("u", whole(0)), ("v", whole(0)), ("w", whole(0))])),
    ];
    let table = find_similar_groups(&groups, &config);
    let ids: Vec<&str> = table.iter().map(|e| e.group_id.as_str()).collect();
    assert_eq!(ids, vec!["a", "b", "c", "d"]);
    // a-b differ in 1; a-c and b-c in 3; d shares nothing.
    assert_eq!(similar(&table, "a").unwrap(), &names(&["b"]));
    assert_eq!(similar(&table, "b").unwrap(), &names(&["a"]));
    assert!(similar(&table, "c").unwrap().is_empty());
    assert!(similar(&table, "d").unwrap().is_empty());
    for entry in &table {
        assert!(!entry.similar.contains(&entry.group_id));
    }
}

#[test]
fn the_threshold_is_inclusive() {
    let mut config = create_test_config();
    let groups = vec![
        group("a", map(vec![("x", whole(1)), ("y", whole(1))])),
        group("b", map(vec![("x", whole(2)), ("y", whole(2))])),
    ];
    config.grouping.similarity_threshold = 2;
    assert_eq!(similar(&find_similar_groups(&groups, &config), "a").unwrap(), &names(&["b"]));
    config.grouping.similarity_threshold = 1;
    assert!(similar(&find_similar_groups(&groups, &config), "a").unwrap().is_empty());
    config.grouping.similarity_threshold = 0;
    let same = vec![group("a", map(vec![("x", whole(1))])), group("b", map(vec![("x", whole(1))]))];
    assert_eq!(similar(&find_similar_groups(&same, &config), "b").unwrap(), &names(&["a"]));
}

#[test]
fn groups_with_one_identifier_share_an_entry() {
    let config = create_test_config();
    let groups = vec![
        group("g", map(vec![("x", whole(1))])),
        group("h", map(vec![("x", whole(2))])),
        group("g", map(vec![("x", whole(3))])),
    ];
    let table = find_similar_groups(&groups, &config);
    let ids: Vec<&str> = table.iter().map(|e| e.group_id.as_str()).collect();
    assert_eq!(ids, vec!["g", "h"]);
    assert_eq!(similar(&table, "g").unwrap(), &names(&["h", "g", "g", "h"]));
    assert_eq!(similar(&table, "h").unwrap(), &names(&["g", "g"]));
}
