use overlayfs::{
    child_relative_path, collapse_staging_layers, escape_mount_option_value,
    prefer_legacy_ksu_lower_only, MAX_LAYERS,
};

fn layer(n: usize) -> String {
    format!("/layer{n}")
}

#[test]
fn escape_mount_option_value_escapes_overlay_separators() {
    assert_eq!(escape_mount_option_value("/a,b:/c\\d"), "/a\\,b\\:/c\\\\d");
}

#[test]
fn ksu_lower_only_mounts_prefer_legacy_source_preserving_path() {
    assert!(prefer_legacy_ksu_lower_only("KSU", None, None));
    assert!(!prefer_legacy_ksu_lower_only("overlay", None, None));
    assert!(!prefer_legacy_ksu_lower_only("KSU", Some("/upper"), Some("/work")));
}

#[test]
fn escaped_lowerdir_preserves_layer_separators() {
    let lower_dirs = ["/a,b".to_owned(), "/c:d".to_owned(), "/e\\f".to_owned()];
    let lowerdir = lower_dirs
        .iter()
        .map(|path| escape_mount_option_value(path))
        .collect::<Vec<_>>()
        .join(":");

    assert_eq!(lowerdir, "/a\\,b:/c\\:d:/e\\\\f");
}

#[test]
fn layers_within_limit_need_no_staging() {
    let mut layers: Vec<String> = (0..MAX_LAYERS).map(layer).collect();
    let mut staging_steps = 0;

    collapse_staging_layers(&mut layers, |_| {
        staging_steps += 1;
        Ok::<_, std::convert::Infallible>(String::new())
    })
    .unwrap();

    assert_eq!(staging_steps, 0);
}

#[test]
fn layer_count_boundaries_match_the_64_layer_contract() {
    for (count, expected_steps) in [
        (0, 0),
        (1, 0),
        (63, 0),
        (64, 0),
        (65, 1),
        (126, 1),
        (127, 2),
        (128, 2),
    ] {
        let mut layers: Vec<String> = (0..count).map(layer).collect();
        let mut chunk_sizes = Vec::new();
        collapse_staging_layers(&mut layers, |staging_layers| {
            chunk_sizes.push(staging_layers.len());
            Ok::<_, std::convert::Infallible>(format!("/staging-{}", chunk_sizes.len()))
        })
        .unwrap();

        assert_eq!(
            (
                chunk_sizes.len(),
                chunk_sizes.iter().all(|size| *size <= MAX_LAYERS),
                layers.len() <= MAX_LAYERS,
            ),
            (expected_steps, true, true),
            "unexpected staging plan for {count} layers"
        );
    }
}

#[test]
fn one_extra_layer_splits_one_chunk() {
    let mut layers: Vec<String> = (0..=MAX_LAYERS).map(layer).collect();
    let mut staging_inputs = Vec::new();
    collapse_staging_layers(&mut layers, |staging_layers| {
        staging_inputs.push(staging_layers.to_vec());
        Ok::<_, std::convert::Infallible>("/staging-0".to_owned())
    })
    .unwrap();

    assert_eq!(
        (layers, staging_inputs),
        (
            vec![layer(0), layer(1), "/staging-0".to_owned()],
            vec![(2..=MAX_LAYERS).map(layer).collect::<Vec<_>>()],
        )
    );
}

#[test]
fn repeated_staging_preserves_every_layer_in_order() {
    for count in 0..=MAX_LAYERS * 4 {
        let original = (0..count)
            .map(|index| format!("[{index}]"))
            .collect::<Vec<_>>();
        let expected = original.concat();
        let mut reduced = original;

        collapse_staging_layers(&mut reduced, |staging_layers| {
            Ok::<_, std::convert::Infallible>(staging_layers.concat())
        })
        .unwrap();

        assert_eq!(
            reduced.concat(),
            expected,
            "staging changed layer coverage or order for {count} layers"
        );
    }
}

#[test]
fn child_relative_path_computes_suffix() {
    assert_eq!(
        child_relative_path("/system", "/system/priv-app"),
        Some("/priv-app".to_owned())
    );
    assert_eq!(child_relative_path("/system", "/system"), None);
    assert_eq!(child_relative_path("/system", "/product"), None);
    assert_eq!(child_relative_path("/system", "/system_ext/app"), None);
}
