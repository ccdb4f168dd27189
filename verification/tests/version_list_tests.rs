use lightning_explorer::attributes::AttributeMap;
use lightning_explorer::config::{Config, GroupingConfig, IgnoredConfig, ToleranceConfig};
use lightning_explorer::experiment_grouping::{group_versions, GroupingError};
use lightning_explorer::file_utils::VersionError;
use lightning_explorer::models::VersionData;
use lightning_explorer::parameter_value::{BasicParameterValue, FloatValue, ParameterValue};
use lightning_explorer::version_list::{
    collect_run, create_version_data_list, make_bucket_label, CommonParameters, ParsedRun,
};
use lightning_explorer::yaml_parser::{flatten, HierarchicalValue, MappingEntry, RawNumber};

fn convert(value: &serde_yaml::Value) -> HierarchicalValue {
    match value {
        serde_yaml::Value::Null => HierarchicalValue::Null,
        serde_yaml::Value::Bool(b) => HierarchicalValue::Bool(*b),
        serde_yaml::Value::Number(n) => HierarchicalValue::Number(RawNumber {
            as_int: n.as_i64(),
            as_float: n.as_f64().map(|f| FloatValue::new(f.to_bits())),
        }),
        serde_yaml::Value::String(s) => HierarchicalValue::String(s.clone()),
        serde_yaml::Value::Sequence(items) => {
            HierarchicalValue::Sequence(items.iter().map(convert).collect())
        }
        serde_yaml::Value::Mapping(entries) => HierarchicalValue::Mapping(
            entries
                .iter()
                .map(|(k, v)| MappingEntry { key: convert(k), value: convert(v) })
                .collect(),
        ),
        serde_yaml::Value::Tagged(tagged) => {
            HierarchicalValue::Tagged(Box::new(convert(&tagged.value)))
        }
    }
}

fn run(path: &str, yaml: &str) -> ParsedRun {
    let value: serde_yaml::Value = serde_yaml::from_str(yaml).unwrap();
    ParsedRun { path: format!("logs/{}", path), hparams: flatten(&convert(&value)).unwrap() }
}

fn names(list: &[&str]) -> Vec<String> {
    list.iter().map(|s| s.to_string()).collect()
}

fn text(s: &str) -> ParameterValue {
    ParameterValue::Basic(BasicParameterValue::String(s.to_string()))
}

fn float(x: f64) -> ParameterValue {
    ParameterValue::Basic(BasicParameterValue::Float(FloatValue::new(x.to_bits())))
}

fn whole(i: i64) -> ParameterValue {
    ParameterValue::Basic(BasicParameterValue::Int(i))
}

fn keys(map: &AttributeMap) -> Vec<String> {
    (0..map.len()).map(|i| map.key_at(i).clone()).collect()
}

fn create_test_config() -> Config {
    Config {
        general: Default::default(),
        ignored_parameters: IgnoredConfig { parameters: names(&["fold", "devices"]) },
        tolerance: ToleranceConfig {
            float_tolerance: 0.001f64.to_bits(),
            int_tolerance: 0,
            string_case_sensitive: false,
        },
        grouping: GroupingConfig {
            group_by_all_parameters: true,
            grouping_parameters: None,
            similarity_threshold: 2,
            main_key: None,
        },
        diff: Default::default(),
        tui: Default::default(),
        keybindings: Default::default(),
        test_script: Default::default(),
    }
}

fn create_test_config_with_main_key(main_key: Option<Vec<String>>) -> Config {
    let mut config = create_test_config();
    config.grouping.main_key = main_key;
    config
}

fn common<'a>(table: &'a [CommonParameters], key: &str) -> Option<&'a AttributeMap> {
    table.iter().find(|e| e.group_key == key).map(|e| &e.common)
}

fn numbers(versions: &[VersionData]) -> Vec<u32> {
    versions.iter().map(|v| v.version_num).collect()
}

#[test]
fn test_remove_common_hparams_without_main_key() {
    let config = create_test_config();

    let parsed = vec![
        run("version_001/hparams.yaml", "model: cnn\nlr: 0.001\nbatch_size: 32\n"),
        run("version_002/hparams.yaml", "model: cnn\nlr: 0.01\nbatch_size: 32\n"),
        run("version_003/hparams.yaml", "model: cnn\nlr: 0.1\nbatch_size: 32\n"),
    ];
    let (versions, _group_common_hparams) =
        create_version_data_list(&config, &parsed).expect("Failed to create version data list");

    assert_eq!(versions.len(), 3, "Should have 3 versions");

    for version in &versions {
        assert!(!version.hparams.contains_key("model"), "Common parameter 'model' should be removed");
        assert!(
            !version.hparams.contains_key("batch_size"),
            "Common parameter 'batch_size' should be removed"
        );
    }

    let lr_values: Vec<_> = versions.iter().filter_map(|v| v.hparams.get("lr")).collect();
    assert_eq!(lr_values.len(), 3, "All versions should have 'lr' parameter");
}

#[test]
fn test_full_flow_with_parameter_filtering() {
    let mut config = create_test_config();
    config.grouping.grouping_parameters = Some(names(&["model", "lr"]));
    config.ignored_parameters.parameters = names(&["fold"]);

    let parsed = vec![
        run(
            "version_001/hparams.yaml",
            "model: cnn\nlr: 0.001\nbatch_size: 32\nfold: 1\noptimizer: adam\n",
        ),
        run(
            "version_002/hparams.yaml",
            "model: cnn\nlr: 0.01\nbatch_size: 64\nfold: 2\noptimizer: sgd\n",
        ),
    ];
    let (versions, _) =
        create_version_data_list(&config, &parsed).expect("Failed to create version data list");

    assert_eq!(versions.len(), 2);

    for version in &versions {
        assert!(version.hparams.contains_key("model"));
        assert!(version.hparams.contains_key("lr"));
        assert!(!version.hparams.contains_key("batch_size"));
        assert!(!version.hparams.contains_key("optimizer"));
        assert!(!version.hparams.contains_key("fold"));
    }

    let groups = group_versions(&config, versions).expect("Failed to group versions");

    assert_eq!(groups.len(), 1);
    assert_eq!(groups[0].member_versions.len(), 2);
}

#[test]
fn test_remove_common_hparams_with_main_key() {
    let config = create_test_config_with_main_key(Some(names(&["model"])));

    let parsed = vec![
        run("version_001/hparams.yaml", "model: cnn\nlr: 0.001\nbatch_size: 32\noptimizer: adam\n"),
        run("version_002/hparams.yaml", "model: cnn\nlr: 0.01\nbatch_size: 32\noptimizer: adam\n"),
        run("version_003/hparams.yaml", "model: rnn\nlr: 0.005\nhidden_size: 128\ndropout: 0.2\n"),
        run("version_004/hparams.yaml", "model: rnn\nlr: 0.05\nhidden_size: 128\ndropout: 0.2\n"),
    ];
    let (versions, group_common_hparams) =
        create_version_data_list(&config, &parsed).expect("Failed to create version data list");

    assert_eq!(group_common_hparams.len(), 2);

    let cnn_group_key = "model=cnn";
    if let Some(common_params) = common(&group_common_hparams, cnn_group_key) {
        assert_eq!(common_params.len(), 2);
        assert!(common_params.contains_key("batch_size"));
        assert!(common_params.contains_key("optimizer"));
    } else {
        panic!("CNN group common parameters not found with key '{}'", cnn_group_key);
    }

    let rnn_group_key = "model=rnn";
    if let Some(common_params) = common(&group_common_hparams, rnn_group_key) {
        assert_eq!(common_params.len(), 2);
        assert!(common_params.contains_key("hidden_size"));
        assert!(common_params.contains_key("dropout"));
    } else {
        panic!("RNN group common parameters not found with key '{}'", rnn_group_key);
    }

    assert_eq!(versions.len(), 4, "Should have 4 versions");

    let cnn_versions: Vec<_> =
        versions.iter().filter(|v| v.hparams.get("model") == Some(&text("cnn"))).collect();
    let rnn_versions: Vec<_> =
        versions.iter().filter(|v| v.hparams.get("model") == Some(&text("rnn"))).collect();

    assert_eq!(cnn_versions.len(), 2, "Should have 2 CNN versions");
    assert_eq!(rnn_versions.len(), 2, "Should have 2 RNN versions");

    for version in &cnn_versions {
        assert!(version.hparams.contains_key("model"), "CNN version should keep 'model' main_key");
        assert!(
            !version.hparams.contains_key("batch_size"),
            "CNN version should remove common parameter 'batch_size'"
        );
        assert!(
            !version.hparams.contains_key("optimizer"),
            "CNN version should remove common parameter 'optimizer'"
        );
        assert!(version.hparams.contains_key("lr"), "CNN version should keep different parameter 'lr'");
    }

    for version in &rnn_versions {
        assert!(version.hparams.contains_key("model"), "RNN version should keep 'model' main_key");
        assert!(
            !version.hparams.contains_key("hidden_size"),
            "RNN version should remove common parameter 'hidden_size'"
        );
        assert!(
            !version.hparams.contains_key("dropout"),
            "RNN version should remove common parameter 'dropout'"
        );
        assert!(version.hparams.contains_key("lr"), "RNN version should keep different parameter 'lr'");
    }
}

#[test]
fn test_parameter_filtering_in_create_version_data_list() {
    let mut config = create_test_config();
    config.grouping.grouping_parameters = Some(names(&["model", "lr"]));
    config.ignored_parameters.parameters = names(&["fold", "devices"]);

    let parsed = vec![run(
        "version_001/hparams.yaml",
        "model: cnn\nlr: 0.001\nbatch_size: 32\nfold: 1\ndevices: 2\noptimizer: adam\n",
    )];
    let (versions, _) =
        create_version_data_list(&config, &parsed).expect("Failed to create version data list");

    assert_eq!(versions.len(), 1, "Should have 1 version");

    let version = &versions[0];

    assert!(
        version.hparams.contains_key("model"),
        "Should contain 'model' parameter. Actual keys: {:?}",
        keys(&version.hparams)
    );
    assert!(
        version.hparams.contains_key("lr"),
        "Should contain 'lr' parameter. Actual keys: {:?}",
        keys(&version.hparams)
    );
    assert!(!version.hparams.contains_key("batch_size"));
    assert!(!version.hparams.contains_key("fold"));
    assert!(!version.hparams.contains_key("devices"));
    assert!(!version.hparams.contains_key("optimizer"));
}

#[test]
fn test_remove_common_hparams_with_multiple_main_keys() {
    let config = create_test_config_with_main_key(Some(names(&["model", "dataset"])));

    let parsed = vec![
        run(
            "version_001/hparams.yaml",
            "model: cnn\ndataset: mnist\nlr: 0.001\noptimizer: adam\nbatch_size: 32\n",
        ),
        run(
            "version_002/hparams.yaml",
            "model: cnn\ndataset: mnist\nlr: 0.01\noptimizer: adam\nbatch_size: 32\n",
        ),
        run(
            "version_003/hparams.yaml",
            "model: cnn\ndataset: cifar10\nlr: 0.005\noptimizer: sgd\nbatch_size: 64\n",
        ),
        run(
            "version_004/hparams.yaml",
            "model: cnn\ndataset: cifar10\nlr: 0.05\noptimizer: sgd\nbatch_size: 64\n",
        ),
        run(
            "version_005/hparams.yaml",
            "model: rnn\ndataset: mnist\nlr: 0.003\noptimizer: adam\nhidden_size: 128\n",
        ),
    ];
    let (versions, group_common_hparams) =
        create_version_data_list(&config, &parsed).expect("Failed to create version data list");

    assert_eq!(group_common_hparams.len(), 2);

    let cnn_mnist_group_key = "model=cnn, dataset=mnist";
    if let Some(common_params) = common(&group_common_hparams, cnn_mnist_group_key) {
        assert_eq!(common_params.len(), 2);
        assert!(common_params.contains_key("optimizer"));
        assert!(common_params.contains_key("batch_size"));
    } else {
        panic!("CNN+MNIST group common parameters not found with key '{}'", cnn_mnist_group_key);
    }

    let cnn_cifar_group_key = "model=cnn, dataset=cifar10";
    if let Some(common_params) = common(&group_common_hparams, cnn_cifar_group_key) {
        assert_eq!(common_params.len(), 2);
        assert!(common_params.contains_key("optimizer"));
        assert!(common_params.contains_key("batch_size"));
    } else {
        panic!("CNN+CIFAR10 group common parameters not found with key '{}'", cnn_cifar_group_key);
    }

    assert_eq!(versions.len(), 5, "Should have 5 versions");

    let of = |model: &str, dataset: &str| -> Vec<&VersionData> {
        versions
            .iter()
            .filter(|v| {
                v.hparams.get("model") == Some(&text(model))
                    && v.hparams.get("dataset") == Some(&text(dataset))
            })
            .collect()
    };
    let cnn_mnist_versions = of("cnn", "mnist");
    let cnn_cifar_versions = of("cnn", "cifar10");
    let rnn_mnist_versions = of("rnn", "mnist");

    assert_eq!(cnn_mnist_versions.len(), 2, "Should have 2 CNN+MNIST versions");
    assert_eq!(cnn_cifar_versions.len(), 2, "Should have 2 CNN+CIFAR10 versions");
    assert_eq!(rnn_mnist_versions.len(), 1, "Should have 1 RNN+MNIST version");

    for version in cnn_mnist_versions.iter().chain(cnn_cifar_versions.iter()) {
        assert!(version.hparams.contains_key("model"));
        assert!(version.hparams.contains_key("dataset"));
        assert!(!version.hparams.contains_key("optimizer"));
        assert!(!version.hparams.contains_key("batch_size"));
        assert!(version.hparams.contains_key("lr"));
    }

    if let Some(version) = rnn_mnist_versions.first() {
        assert!(version.hparams.contains_key("model"));
        assert!(version.hparams.contains_key("dataset"));
        assert!(version.hparams.contains_key("optimizer"));
        assert!(version.hparams.contains_key("hidden_size"));
        assert!(version.hparams.contains_key("lr"));
    }
}

#[test]
fn test_missing_main_key_should_error() {
    let config = create_test_config_with_main_key(Some(names(&["model"])));

    let parsed = vec![
        run("version_001/hparams.yaml", "model: cnn\nlr: 0.001\n"),
        run("version_002/hparams.yaml", "lr: 0.01\nbatch_size: 32\n"),
    ];
    let result = create_version_data_list(&config, &parsed);

    assert!(result.is_err(), "Should return error when version is missing main_key");
    assert!(
        result.err().unwrap().message().contains("missing required main_key"),
        "Error message should indicate missing main_key"
    );
}

#[test]
fn the_error_names_the_run_and_the_missing_key() {
    let config = create_test_config_with_main_key(Some(names(&["model", "dataset"])));
    let parsed = vec![
        run("version_7/hparams.yaml", "model: cnn\ndataset: mnist\n"),
        run("version_12/hparams.yaml", "model: cnn\nlr: 0.01\n"),
        run("version_13/hparams.yaml", "lr: 0.01\n"),
    ];
    let error = create_version_data_list(&config, &parsed).unwrap_err();
    assert_eq!(error, GroupingError::MissingMainKey { version_num: 12, key: "dataset".to_string() });
    assert_eq!(error.message(), "Version 12 is missing required main_key 'dataset'");
}

#[test]
fn a_main_key_that_is_ignored_is_still_asked_of_every_run() {
    // The check reads the attributes as they were read, before the filter.
    let mut config = create_test_config_with_main_key(Some(names(&["fold"])));
    config.ignored_parameters.parameters = names(&["fold"]);
    let parsed = vec![
        run("version_1/hparams.yaml", "fold: 1\nlr: 0.1\nseed: 5\n"),
        run("version_2/hparams.yaml", "fold: 1\nlr: 0.2\nseed: 5\n"),
    ];
    let (versions, table) = create_version_data_list(&config, &parsed).unwrap();
    // After the filter no run has the main key: no run falls in a bucket, nothing is taken out.
    assert!(table.is_empty());
    for version in &versions {
        assert_eq!(keys(&version.hparams), vec!["lr", "seed"]);
    }
}

#[test]
fn a_path_without_a_run_number_fails_the_pass() {
    let config = create_test_config();
    let parsed = vec![
        run("version_1/hparams.yaml", "lr: 0.1\n"),
        run("other/hparams.yaml", "lr: 0.2\n"),
    ];
    assert_eq!(
        create_version_data_list(&config, &parsed),
        Err(GroupingError::InvalidRunPath {
            path: "logs/other/hparams.yaml".to_string(),
            cause: VersionError::NoVersionDirectory,
        })
    );
    let parsed = vec![run("version_x1/hparams.yaml", "lr: 0.2\n")];
    let error = create_version_data_list(&config, &parsed).unwrap_err();
    assert_eq!(
        error,
        GroupingError::InvalidRunPath {
            path: "logs/version_x1/hparams.yaml".to_string(),
            cause: VersionError::NotANumber,
        }
    );
    assert_eq!(
        error.message(),
        "Failed to parse version number from path: logs/version_x1/hparams.yaml"
    );
}

#[test]
fn the_first_failure_in_the_order_of_the_runs_is_reported() {
    let config = create_test_config_with_main_key(Some(names(&["model"])));
    let parsed = vec![
        run("version_1/hparams.yaml", "lr: 0.1\n"),
        run("other/hparams.yaml", "model: x\n"),
    ];
    assert_eq!(
        create_version_data_list(&config, &parsed),
        Err(GroupingError::MissingMainKey { version_num: 1, key: "model".to_string() })
    );
}

#[test]
fn runs_come_out_by_number_with_the_directory_as_path() {
    let mut config = create_test_config();
    config.grouping.grouping_parameters = Some(names(&["lr"]));
    let parsed = vec![
        run("version_10/hparams.yaml", "lr: 0.1\n"),
        run("version_2/hparams.yaml", "lr: 0.2\n"),
        run("version_007/hparams.yaml", "lr: 0.3\n"),
    ];
    let (versions, table) = create_version_data_list(&config, &parsed).unwrap();
    assert!(table.is_empty());
    assert_eq!(numbers(&versions), vec![2, 7, 10]);
    let paths: Vec<&str> = versions.iter().map(|v| v.path.as_str()).collect();
    assert_eq!(paths, vec!["logs/version_2", "logs/version_007", "logs/version_10"]);
    assert_eq!(versions[0].hparams.get("lr"), Some(&float(0.2)));
}

#[test]
fn with_an_allow_list_and_no_main_key_nothing_is_taken_out() {
    let mut config = create_test_config();
    config.grouping.grouping_parameters = Some(names(&["model", "lr"]));
    let parsed = vec![
        run("version_1/hparams.yaml", "model: cnn\nlr: 0.1\n"),
        run("version_2/hparams.yaml", "model: cnn\nlr: 0.1\n"),
    ];
    let (versions, table) = create_version_data_list(&config, &parsed).unwrap();
    assert!(table.is_empty());
    for version in &versions {
        assert_eq!(keys(&version.hparams), vec!["lr", "model"]);
    }
}

#[test]
fn without_a_main_key_a_single_run_shares_everything_with_itself() {
    let config = create_test_config();
    let parsed = vec![run("version_1/hparams.yaml", "model: cnn\nlr: 0.1\n")];
    let (versions, table) = create_version_data_list(&config, &parsed).unwrap();
    assert!(table.is_empty());
    assert_eq!(versions.len(), 1);
    assert!(versions[0].hparams.is_empty());
    let (none, table) = create_version_data_list(&config, &vec![]).unwrap();
    assert!(none.is_empty() && table.is_empty());
}

#[test]
fn common_means_exactly_equal_and_present_in_every_run() {
    let config = create_test_config_with_main_key(Some(names(&["model"])));
    let parsed = vec![
        run("version_1/hparams.yaml", "model: cnn\na: 1\nb: 0.5\nc: x\nd: [1, 2]\ne: 1\nf: 7\n"),
        run("version_2/hparams.yaml", "model: cnn\na: 1\nb: 0.5004\nc: X\nd: [1, 2]\ne: 1.0\ng: 7\n"),
        run("version_3/hparams.yaml", "model: cnn\na: 1\nb: 0.5\nc: x\nd: [1, 2]\ne: 1\nf: 7\n"),
    ];
    let (versions, table) = create_version_data_list(&config, &parsed).unwrap();
    let shared = common(&table, "model=cnn").unwrap();
    // b is equal only within the tolerance, c only without case, e differs in kind, f and g are not everywhere.
    assert_eq!(keys(shared), vec!["a", "d"]);
    assert_eq!(shared.get("a"), Some(&whole(1)));
    assert_eq!(keys(&versions[0].hparams), vec!["b", "c", "e", "f", "model"]);
    assert_eq!(keys(&versions[1].hparams), vec!["b", "c", "e", "g", "model"]);
    assert_eq!(keys(&versions[2].hparams), vec!["b", "c", "e", "f", "model"]);
}

#[test]
fn the_table_lists_buckets_by_their_first_run() {
    let config = create_test_config_with_main_key(Some(names(&["model"])));
    let parsed = vec![
        run("version_4/hparams.yaml", "model: b\nx: 1\n"),
        run("version_3/hparams.yaml", "model: a\nx: 1\n"),
        run("version_2/hparams.yaml", "model: b\nx: 1\n"),
        run("version_1/hparams.yaml", "model: a\nx: 2\n"),
        run("version_5/hparams.yaml", "model: c\nx: 1\n"),
    ];
    let (versions, table) = create_version_data_list(&config, &parsed).unwrap();
    assert_eq!(numbers(&versions), vec![1, 2, 3, 4, 5]);
    let bucket_keys: Vec<&str> = table.iter().map(|e| e.group_key.as_str()).collect();
    assert_eq!(bucket_keys, vec!["model=a", "model=b"]);
    assert!(common(&table, "model=a").unwrap().is_empty());
    assert_eq!(keys(common(&table, "model=b").unwrap()), vec!["x"]);
    assert_eq!(keys(&versions[0].hparams), vec!["model", "x"]);
    assert_eq!(keys(&versions[1].hparams), vec!["model"]);
    assert_eq!(keys(&versions[4].hparams), vec!["model", "x"]);
}

#[test]
fn bucket_keys_render_the_values_of_the_main_key() {
    let parsed = run(
        "version_1/hparams.yaml",
        "model: cnn\nlr: 0.001\nlayers: [1, 2]\nseed: -3\nbias: true\n",
    );
    let label = |list: &[&str]| make_bucket_label(&parsed.hparams, &names(list));
    assert_eq!(label(&["model"]), Some("model=cnn".to_string()));
    assert_eq!(label(&["lr", "model"]), Some("lr=0.001000, model=cnn".to_string()));
    assert_eq!(
        label(&["layers", "seed", "bias"]),
        Some("layers=[1, 2], seed=-3, bias=true".to_string())
    );
    assert_eq!(label(&[]), Some(String::new()));
    assert_eq!(label(&["model", "absent"]), None);
}

#[test]
fn collect_run_filters_and_numbers_a_run() {
    let config = create_test_config();
    let parsed = run("version_42/hparams.yaml", "model: cnn\nfold: 3\ndevices: 1\n");
    let version = collect_run(&parsed, &config).unwrap();
    assert_eq!(version.version_num, 42);
    assert_eq!(version.path, "logs/version_42");
    assert_eq!(keys(&version.hparams), vec!["model"]);
}

#[test]
fn three_runs_that_differ_in_the_learning_rate() {
    let parsed = || {
        vec![
            run("version_001/hparams.yaml", "model: cnn\nbatch_size: 32\nlr: 0.001\n"),
            run("version_002/hparams.yaml", "model: cnn\nbatch_size: 32\nlr: 0.01\n"),
            run("version_003/hparams.yaml", "model: cnn\nbatch_size: 32\nlr: 0.1\n"),
        ]
    };
    // No main key, no allow-list: what all runs share is taken out of each.
    let config = create_test_config();
    let (versions, table) = create_version_data_list(&config, &parsed()).unwrap();
    assert!(table.is_empty());
    for version in &versions {
        assert_eq!(keys(&version.hparams), vec!["lr"]);
    }
    // A group takes a run that differs in nothing: the learning rates differ by more than the tolerance.
    let groups = group_versions(&config, versions).unwrap();
    assert_eq!(groups.len(), 3);
    assert!(groups.iter().all(|g| g.member_versions.len() == 1));

    // Under a tolerance that covers the learning rates the runs are one group.
    let mut wide = create_test_config();
    wide.tolerance.float_tolerance = 0.1f64.to_bits();
    let (versions, _) = create_version_data_list(&wide, &parsed()).unwrap();
    let groups = group_versions(&wide, versions).unwrap();
    assert_eq!(groups.len(), 1);
    assert_eq!(groups[0].member_versions.len(), 3);

    // With an allow-list a group takes a run that has the allowed attributes, whatever their values.
    let mut allowed = create_test_config();
    allowed.grouping.grouping_parameters = Some(names(&["model", "lr"]));
    let (versions, table) = create_version_data_list(&allowed, &parsed()).unwrap();
    assert!(table.is_empty());
    for version in &versions {
        assert_eq!(keys(&version.hparams), vec!["lr", "model"]);
    }
    let groups = group_versions(&allowed, versions).unwrap();
    assert_eq!(groups.len(), 1);
    assert_eq!(groups[0].member_versions.len(), 3);
    let members: Vec<u32> = groups[0].member_versions.iter().map(|v| v.version_num).collect();
    assert_eq!(members, vec![1, 2, 3]);
}

#[test]
fn two_buckets_under_a_main_key() {
    let config = create_test_config_with_main_key(Some(names(&["model"])));
    let parsed = vec![
        run("version_1/hparams.yaml", "model: cnn\nbatch_size: 32\noptimizer: adam\nlr: 0.001\n"),
        run("version_2/hparams.yaml", "model: cnn\nbatch_size: 32\noptimizer: adam\nlr: 0.01\n"),
        run("version_3/hparams.yaml", "model: rnn\nhidden_size: 128\ndropout: 0.2\nlr: 0.005\n"),
        run("version_4/hparams.yaml", "model: rnn\nhidden_size: 128\ndropout: 0.2\nlr: 0.05\n"),
    ];
    let (versions, table) = create_version_data_list(&config, &parsed).unwrap();
    assert_eq!(table.len(), 2);
    assert_eq!(keys(common(&table, "model=cnn").unwrap()), vec!["batch_size", "optimizer"]);
    assert_eq!(keys(common(&table, "model=rnn").unwrap()), vec!["dropout", "hidden_size"]);
    assert_eq!(common(&table, "model=cnn").unwrap().get("optimizer"), Some(&text("adam")));
    assert_eq!(common(&table, "model=rnn").unwrap().get("dropout"), Some(&float(0.2)));
    assert_eq!(versions.len(), 4);
    for version in &versions {
        assert_eq!(keys(&version.hparams), vec!["lr", "model"]);
    }
}

#[test]
fn a_run_without_the_main_key_fails_the_pass() {
    let config = create_test_config_with_main_key(Some(names(&["model"])));
    let parsed = vec![
        run("version_1/hparams.yaml", "model: cnn\nlr: 0.001\n"),
        run("version_2/hparams.yaml", "lr: 0.01\n"),
        run("version_3/hparams.yaml", "model: cnn\nlr: 0.1\n"),
    ];
    let result = create_version_data_list(&config, &parsed);
    assert_eq!(
        result,
        Err(GroupingError::MissingMainKey { version_num: 2, key: "model".to_string() })
    );
}
