use colorcet::colormap::RAMP_SAMPLES;
use colorcet::name::{is_plain, lowering_keeps_suffix, same_ignoring_case};
use colorcet::{Catalog, ColorMap, ColorcetError, Sample};

fn sample(r: f64, g: f64, b: f64) -> Sample {
    [r.to_bits(), g.to_bits(), b.to_bits()]
}

fn floats(samples: &[Sample]) -> Vec<[f64; 3]> {
    samples
        .iter()
        .map(|s| [f64::from_bits(s[0]), f64::from_bits(s[1]), f64::from_bits(s[2])])
        .collect()
}

fn viridis() -> Vec<Sample> {
    vec![
        sample(0.267004, 0.004874, 0.329415),
        sample(0.127568, 0.566949, 0.550556),
        sample(0.993248, 0.906157, 0.143936),
    ]
}

fn fire() -> Vec<Sample> {
    vec![sample(0.0, 0.0, 0.0), sample(1.0, 0.5, 0.0), sample(1.0, 1.0, 1.0), sample(0.25, 0.75, 0.125)]
}

fn catalog() -> Catalog {
    let aliases = vec![
        ("viridis".to_string(), "viridis".to_string()),
        ("bmy".to_string(), "viridis".to_string()),
        ("fire".to_string(), "linear_kryw_0_100_c71".to_string()),
        ("linear_kryw_0_100_c71".to_string(), "linear_kryw_0_100_c71".to_string()),
        ("red".to_string().repeat(2), "viridis".to_string()),
    ];
    let palettes = vec![
        ("viridis".to_string(), viridis()),
        ("linear_kryw_0_100_c71".to_string(), fire()),
    ];
    Catalog::new(aliases, palettes).unwrap()
}

fn resolved(name: &str) -> Vec<Sample> {
    ColorMap::from_str(&catalog(), name).unwrap().get_rgb_float()
}

#[test]
fn canonical_key_resolves_to_its_palette() {
    assert_eq!(resolved("viridis"), viridis());
    assert_eq!(resolved("linear_kryw_0_100_c71"), fire());
    assert!(!resolved("viridis").is_empty());
}

#[test]
fn alias_resolves_like_its_canonical_key() {
    assert_eq!(resolved("bmy"), resolved("viridis"));
    assert_eq!(resolved("fire"), resolved("linear_kryw_0_100_c71"));
    assert_eq!(resolved("fire"), fire());
}

#[test]
fn reversal_suffix_reverses_element_for_element() {
    let forward = resolved("fire");
    let backward = resolved("fire_r");
    assert_eq!(backward.len(), forward.len());
    for i in 0..forward.len() {
        assert_eq!(backward[i], forward[forward.len() - 1 - i]);
    }
    assert_eq!(
        floats(&backward),
        vec![[0.25, 0.75, 0.125], [1.0, 1.0, 1.0], [1.0, 0.5, 0.0], [0.0, 0.0, 0.0]]
    );
}

#[test]
fn reversal_is_checked_on_the_lowered_name() {
    assert_eq!(resolved("FIRE_R"), resolved("fire_r"));
    assert_eq!(resolved("Bmy_R"), resolved("viridis_r"));
}

#[test]
fn only_one_suffix_is_stripped() {
    let err = ColorMap::from_str(&catalog(), "fire_r_r").err().unwrap();
    assert_eq!(err, ColorcetError::ColormapNotFound("fire_r_r".to_string()));
}

#[test]
fn names_are_case_insensitive() {
    let lower = resolved("viridis");
    assert_eq!(resolved("Viridis"), lower);
    assert_eq!(resolved("VIRIDIS"), lower);
    assert_eq!(lower, viridis());
}

#[test]
fn unknown_name_fails_with_the_original_string() {
    let err = ColorMap::from_str(&catalog(), "not_a_color_xyz").err().unwrap();
    assert_eq!(err, ColorcetError::ColormapNotFound("not_a_color_xyz".to_string()));
}

#[test]
fn error_keeps_case_and_suffix_of_the_request() {
    let err = ColorMap::from_str(&catalog(), "Not_A_Color_XYZ_R").err().unwrap();
    assert_eq!(err, ColorcetError::ColormapNotFound("Not_A_Color_XYZ_R".to_string()));
    assert_eq!(err.message(), "no colormap with name Not_A_Color_XYZ_R known");
}

#[test]
fn empty_name_is_not_found() {
    let err = ColorMap::from_str(&catalog(), "").err().unwrap();
    assert_eq!(err, ColorcetError::ColormapNotFound(String::new()));
    let err = ColorMap::from_str(&catalog(), "_r").err().unwrap();
    assert_eq!(err, ColorcetError::ColormapNotFound("_r".to_string()));
}

#[test]
fn named_color_falls_back_to_a_ramp_from_black() {
    let ramp = resolved("red");
    assert_eq!(ramp.len(), 256);
    assert_eq!(ramp.len(), RAMP_SAMPLES);
    let values = floats(&ramp);
    assert_eq!(values[0], [0.0, 0.0, 0.0]);
    assert_eq!(values[255], [1.0, 0.0, 0.0]);
    for i in 1..256 {
        assert!(values[i - 1][0] < values[i][0]);
        assert_eq!(values[i][1], 0.0);
        assert_eq!(values[i][2], 0.0);
    }
}

#[test]
fn ramp_samples_are_the_singles_of_the_gradient() {
    let values = floats(&resolved("red"));
    for i in 0..256 {
        let t = (i as f32 * 1.0) / 255.0;
        let expected = if i == 0 { 0.0 } else if i == 255 { 1.0 } else { 0.0 + t * (1.0f32 - 0.0) };
        assert_eq!(values[i][0], expected as f64);
    }
}

#[test]
fn hex_color_falls_back_to_a_ramp_from_black() {
    let ramp = floats(&resolved("#0080ff"));
    assert_eq!(ramp.len(), 256);
    assert_eq!(ramp[0], [0.0, 0.0, 0.0]);
    assert_eq!(ramp[255], [0.0, (128.0f32 / 255.0) as f64, 1.0]);
}

#[test]
fn fallback_ramp_can_be_reversed_and_is_case_insensitive() {
    let forward = resolved("red");
    let backward = resolved("RED_R");
    assert_eq!(backward.len(), 256);
    for i in 0..256 {
        assert_eq!(backward[i], forward[255 - i]);
    }
    assert_eq!(floats(&backward)[0], [1.0, 0.0, 0.0]);
}

#[test]
fn catalog_entry_wins_over_a_color_of_the_same_name() {
    assert_eq!(resolved("redred"), viridis());
    let aliases = vec![("red".to_string(), "k".to_string())];
    let palettes = vec![("k".to_string(), fire())];
    let catalog = Catalog::new(aliases, palettes).unwrap();
    assert_eq!(ColorMap::from_str(&catalog, "red").unwrap().get_rgb_float(), fire());
}

#[test]
fn canonical_key_without_alias_is_not_looked_up() {
    let aliases = vec![("a".to_string(), "hidden_key".to_string())];
    let palettes = vec![("hidden_key".to_string(), fire())];
    let catalog = Catalog::new(aliases, palettes).unwrap();
    assert_eq!(ColorMap::from_str(&catalog, "a").unwrap().get_rgb_float(), fire());
    let err = ColorMap::from_str(&catalog, "hidden_key").err().unwrap();
    assert_eq!(err, ColorcetError::ColormapNotFound("hidden_key".to_string()));
}

#[test]
fn from_normalized_looks_up_the_lowered_name_and_reports_the_original() {
    let catalog = catalog();
    let found = ColorMap::from_normalized(&catalog, "FIRE_R", "fire_r").unwrap();
    assert_eq!(found.get_rgb_float(), resolved("fire_r"));
    let err = ColorMap::from_normalized(&catalog, "Nope", "nope").err().unwrap();
    assert_eq!(err, ColorcetError::ColormapNotFound("Nope".to_string()));
}

#[test]
fn from_ramp_widens_the_samples() {
    let ramp = vec![
        [0.0f32.to_bits(), 0.5f32.to_bits(), 1.0f32.to_bits()],
        [0.1f32.to_bits(), 0.2f32.to_bits(), 0.3f32.to_bits()],
    ];
    let forward = ColorMap::from_ramp("x", false, Some(ramp.clone())).unwrap();
    assert_eq!(
        floats(&forward.get_rgb_float()),
        vec![[0.0, 0.5, 1.0], [0.1f32 as f64, 0.2f32 as f64, 0.3f32 as f64]]
    );
    let backward = ColorMap::from_ramp("x", true, Some(ramp)).unwrap();
    assert_eq!(
        floats(&backward.get_rgb_float()),
        vec![[0.1f32 as f64, 0.2f32 as f64, 0.3f32 as f64], [0.0, 0.5, 1.0]]
    );
}

#[test]
fn from_ramp_without_samples_reports_the_name() {
    let err = ColorMap::from_ramp("Some Name_r", true, None).err().unwrap();
    assert_eq!(err, ColorcetError::ColormapNotFound("Some Name_r".to_string()));
}

#[test]
fn float_round_trip_preserves_every_value() {
    let values = [0.0, 1.0, 0.5, 0.1, 1.0 / 3.0, 0.267004, f64::MIN_POSITIVE, 5e-324, 0.9999999999999999];
    let palette: Vec<Sample> = values.iter().map(|v| sample(*v, 1.0 - *v, *v / 2.0)).collect();
    let catalog =
        Catalog::new(vec![("p".to_string(), "p".to_string())], vec![("p".to_string(), palette)]).unwrap();
    let back = floats(&ColorMap::from_str(&catalog, "p").unwrap().get_rgb_float());
    for (i, v) in values.iter().enumerate() {
        assert_eq!(back[i], [*v, 1.0 - *v, *v / 2.0]);
    }
}

#[test]
fn clone_keeps_the_samples() {
    let map = ColorMap::from_str(&catalog(), "fire_r").unwrap();
    let copy = map.clone();
    assert_eq!(copy.get_rgb_float(), map.get_rgb_float());
    assert_eq!(copy.to_css_hex(), map.to_css_hex());
}

#[test]
fn catalog_names_resolve_in_any_case_and_direction() {
    let catalog = catalog();
    for name in ["viridis", "bmy", "fire", "linear_kryw_0_100_c71"] {
        let forward = ColorMap::from_str(&catalog, name).unwrap().get_rgb_float();
        assert!(!forward.is_empty());
        let upper = ColorMap::from_str(&catalog, &name.to_uppercase()).unwrap().get_rgb_float();
        assert_eq!(upper, forward);
        let mut backward =
            ColorMap::from_str(&catalog, &format!("{name}_R")).unwrap().get_rgb_float();
        backward.reverse();
        assert_eq!(backward, forward);
    }
}

#[test]
fn lowercase_follows_unicode() {
    let aliases = vec![("grün".to_string(), "k".to_string())];
    let palettes = vec![("k".to_string(), fire())];
    let catalog = Catalog::new(aliases, palettes).unwrap();
    assert_eq!(ColorMap::from_str(&catalog, "GRÜN").unwrap().get_rgb_float(), fire());
    assert_eq!(ColorMap::from_str(&catalog, "Grün_R").unwrap().get_rgb_float().len(), 4);
}

#[test]
fn plain_names_are_lower_case_without_suffix() {
    assert!(is_plain("viridis"));
    assert!(is_plain("linear_kryw_0_100_c71"));
    assert!(is_plain(""));
    assert!(is_plain("r"));
    assert!(is_plain("_"));
    assert!(is_plain("grün"));
    assert!(!is_plain("Viridis"));
    assert!(!is_plain("VIRIDIS"));
    assert!(!is_plain("viridis_r"));
    assert!(!is_plain("_r"));
    assert!(!is_plain("GRÜN"));
    assert!(!is_plain("viridis_R"));
}

#[test]
fn names_are_compared_ignoring_case() {
    assert!(same_ignoring_case("Viridis", "VIRIDIS"));
    assert!(same_ignoring_case("viridis", "viridis"));
    assert!(same_ignoring_case("", ""));
    assert!(same_ignoring_case("GRÜN_R", "grün_r"));
    assert!(!same_ignoring_case("viridis", "viridis_r"));
    assert!(!same_ignoring_case("fire", "fir"));
    assert!(!same_ignoring_case("a", "b"));
}

#[test]
fn lowering_keeps_the_suffix_of_ordinary_names() {
    assert!(lowering_keeps_suffix("fire"));
    assert!(lowering_keeps_suffix("FIRE"));
    assert!(lowering_keeps_suffix(""));
    assert!(lowering_keeps_suffix("Grün"));
    assert!(lowering_keeps_suffix("fire_r"));
}

#[test]
fn lowering_depends_on_what_follows_a_final_sigma() {
    // A capital sigma at the end of a word is put in lower case as a final
    // sigma, and otherwise as a medial one.
    assert_eq!("ΟΔΟΣ".to_lowercase(), "οδος");
    assert_eq!("ΟΔΟΣA".to_lowercase(), "οδοσa");
    assert!(!lowering_keeps_suffix("ΟΔΟΣ") || "ΟΔΟΣ_r".to_lowercase() == "οδος_r");
    assert_eq!(
        lowering_keeps_suffix("ΟΔΟΣ"),
        "ΟΔΟΣ_r".to_lowercase() == format!("{}_r", "ΟΔΟΣ".to_lowercase())
    );
}

#[test]
fn a_name_and_its_suffixed_form_are_looked_up_alike() {
    let catalog = catalog();
    for name in ["fire", "FIRE", "Bmy", "viridis"] {
        assert!(lowering_keeps_suffix(name));
        let forward = ColorMap::from_str(&catalog, name).unwrap().get_rgb_float();
        let mut backward =
            ColorMap::from_str(&catalog, &format!("{name}_r")).unwrap().get_rgb_float();
        backward.reverse();
        assert_eq!(backward, forward);
    }
}
