use sweeprun::config::{Config, Permutation};

fn config_with(args: Vec<(&str, Vec<&str>)>, repeat: usize) -> Config {
    Config {
        name: String::from("exp"),
        hosts: vec![String::from("a")],
        workdir: String::from("work"),
        executable: String::from("run.sh"),
        repeat,
        threads_per_task: 1,
        arguments: args
            .into_iter()
            .map(|(k, vs)| (String::from(k), vs.into_iter().map(String::from).collect()))
            .collect(),
    }
}

fn ids(perms: &[Permutation]) -> Vec<String> {
    perms.iter().map(|p| p.id.clone()).collect()
}

#[test]
fn four_permutations_in_sorted_key_order() {
    let c = config_with(vec![("lr", vec!["0.1", "0.2"]), ("seed", vec!["1", "2"])], 1);
    let perms = c.get_arguments_permutations();
    assert_eq!(
        ids(&perms),
        vec![
            "lr=0.1-seed=1_0".to_string(),
            "lr=0.1-seed=2_0".to_string(),
            "lr=0.2-seed=1_0".to_string(),
            "lr=0.2-seed=2_0".to_string(),
        ]
    );
}

#[test]
fn parameters_render_as_flags() {
    let c = config_with(vec![("lr", vec!["0.1"]), ("seed", vec!["7"])], 1);
    let perms = c.get_arguments_permutations();
    assert_eq!(perms.len(), 1);
    assert_eq!(perms[0].parameters, "--lr=0.1 --seed=7");
    assert_eq!(perms[0].id, "lr=0.1-seed=7_0");
}

#[test]
fn empty_mapping_yields_no_permutations() {
    let c = config_with(vec![], 3);
    let perms = c.get_arguments_permutations();
    assert!(perms.is_empty());
}

#[test]
fn count_is_repeat_times_product() {
    let c = config_with(vec![("a", vec!["1", "2"]), ("b", vec!["x", "y", "z"])], 2);
    let perms = c.get_arguments_permutations();
    assert_eq!(perms.len(), 2 * 2 * 3);
}

#[test]
fn repeat_zero_yields_no_permutations() {
    let c = config_with(vec![("a", vec!["1", "2"])], 0);
    let perms = c.get_arguments_permutations();
    assert!(perms.is_empty());
}

#[test]
fn repeat_indices_suffix_each_combination() {
    let c = config_with(vec![("a", vec!["1"])], 3);
    let perms = c.get_arguments_permutations();
    assert_eq!(
        ids(&perms),
        vec!["a=1_0".to_string(), "a=1_1".to_string(), "a=1_2".to_string()]
    );
}

#[test]
fn repeat_suffix_is_decimal_beyond_ten() {
    let c = config_with(vec![("a", vec!["1"])], 12);
    let perms = c.get_arguments_permutations();
    assert_eq!(perms[10].id, "a=1_10");
    assert_eq!(perms[11].id, "a=1_11");
}

#[test]
fn identifiers_are_pairwise_distinct() {
    let c = config_with(
        vec![("a", vec!["1", "2", "3"]), ("b", vec!["x", "y"]), ("c", vec!["0"])],
        2,
    );
    let perms = c.get_arguments_permutations();
    let mut seen = ids(&perms);
    let n = seen.len();
    seen.sort();
    seen.dedup();
    assert_eq!(seen.len(), n);
}

#[test]
fn regeneration_is_deterministic() {
    let c = config_with(vec![("a", vec!["1", "2"]), ("b", vec!["x", "y"])], 2);
    let first = ids(&c.get_arguments_permutations());
    let second = ids(&c.get_arguments_permutations());
    assert_eq!(first, second);
}

#[test]
fn empty_value_list_yields_no_permutations() {
    let c = config_with(vec![("a", vec![]), ("b", vec!["1", "2"])], 2);
    let perms = c.get_arguments_permutations();
    assert!(perms.is_empty());
}

#[test]
fn underscores_in_values_keep_identifiers_distinct() {
    let c = config_with(vec![("a", vec!["x", "x_1"])], 2);
    let perms = c.get_arguments_permutations();
    let mut seen = ids(&perms);
    seen.sort();
    seen.dedup();
    assert_eq!(seen.len(), 4);
    assert_eq!(
        ids(&perms),
        vec![
            "a=x_0".to_string(),
            "a=x_1".to_string(),
            "a=x_1_0".to_string(),
            "a=x_1_1".to_string(),
        ]
    );
}
