use calibraw_core::lens_match::{
    automatic_match, canonical_lens_model, canonical_text, lens_metadata_is_exact, lens_model_codes,
    lens_tokens, maker_is_compatible, sort_and_deduplicate_lenses, tokenized, LensMatchKind, LensfunLens,
};

fn lens(maker: &str, model: &str) -> LensfunLens {
    LensfunLens { maker: maker.to_owned(), model: model.to_owned() }
}

#[test]
fn lens_labels_join_trimmed_maker_and_model() {
    assert_eq!(lens(" Canon ", " EF 50mm f/1.8 ").label(), "Canon EF 50mm f/1.8");
    assert_eq!(lens("", " EF 50mm ").label(), "EF 50mm");
    assert_eq!(lens("Canon", "  ").label(), "Canon");
}

#[test]
fn canonical_text_keeps_lowercase_alphanumerics() {
    assert_eq!(canonical_text("EF 50mm f/1.8 STM"), "ef50mmf18stm");
    assert_eq!(canonical_lens_model("Canon EF 50mm", &["Canon", "Canon"]), "ef50mm");
    assert_eq!(canonical_lens_model("Canon", &["Canon"]), "canon");
    assert_eq!(canonical_lens_model("Sigma Sony 24mm", &["Sigma", "Sony"]), "24mm");
}

#[test]
fn maker_compatibility_allows_blank_and_nested_names() {
    assert!(maker_is_compatible("", "EF 50mm", "Canon"));
    assert!(maker_is_compatible("Canon", "EF 50mm", ""));
    assert!(maker_is_compatible("Canon", "EF 50mm", "canon"));
    assert!(maker_is_compatible("OLYMPUS IMAGING CORP.", "M.12-40mm", "Olympus"));
    assert!(maker_is_compatible("Sony", "SIGMA 35mm", "Sigma"));
    assert!(!maker_is_compatible("Sony", "FE 85mm F1.8", "Canon"));
}

#[test]
fn exact_lens_metadata_ignores_the_maker_prefix() {
    let candidate = lens("Canon", "Canon EF 50mm f/1.8 STM");
    assert!(lens_metadata_is_exact("Canon", "EF 50mm f/1.8 STM", &candidate));
    assert!(!lens_metadata_is_exact("Canon", "EF 50mm f/1.4 USM", &candidate));
    assert!(!lens_metadata_is_exact("Nikon", "EF 50mm f/1.8 STM", &candidate));
}

#[test]
fn tokens_codes_and_descriptive_tokens() {
    assert_eq!(
        tokenized("EF-S 18-55mm f/3.5-5.6 IS"),
        vec!["ef", "s", "18", "55mm", "f", "3", "5", "5", "6", "is"]
    );
    assert_eq!(lens_model_codes("Sony FE 24-70mm F2.8 GM II (SEL2470GM2)"), vec!["sel2470gm2"]);
    assert_eq!(lens_model_codes("EF50 f28 XF35 xf35"), vec!["ef50", "xf35"]);
    assert!(lens_model_codes("Sigma 24-70mm F2.8 DG DN | Art 019").is_empty());
    assert_eq!(
        lens_tokens("Canon EF 50mm f/1.8 STM Lens", "Canon", ""),
        vec!["1", "50mm", "8", "ef", "f", "stm"]
    );
}

#[test]
fn automatic_matches_rank_from_exact_to_token_overlap() {
    let exact = lens("Canon", "Canon EF 50mm f/1.8 STM");
    assert_eq!(automatic_match("Canon", "EF 50mm f/1.8 STM", &exact, true), LensMatchKind::Exact);
    assert_eq!(automatic_match("Canon", "EF 50mm f/1.8 STM", &exact, false), LensMatchKind::NoMatch);
    let other_maker = lens("Canon", "EF 85mm f/1.8 USM");
    assert_eq!(automatic_match("Sony", "FE 85mm F1.8", &other_maker, true), LensMatchKind::NoMatch);
    let coded = lens("Sony", "FE 24-70mm f/2.8 GM II SEL2470GM2 Lens");
    assert_eq!(
        automatic_match("Sony", "FE 24-70mm F2.8 GM II (SEL2470GM2)", &coded, true),
        LensMatchKind::SharedCode
    );
    let shorter = lens("Sigma", "35mm f/1.4 DG HSM");
    assert_eq!(
        automatic_match("Sigma", "Sigma 35mm F1.4 DG HSM | Art", &shorter, true),
        LensMatchKind::Contained
    );
    let wider = lens("Tamron", "SP AF 70-200mm F/2.8 Di VC USD G2 A025");
    assert_eq!(
        automatic_match("Tamron", "SP 70-200mm F/2.8 Di VC USD G2", &wider, true),
        LensMatchKind::Tokens { shared: 10, total: 12 }
    );
    let other_range = lens("Tamron", "SP 70-210mm F/2.8 Di VC USD G2");
    assert_eq!(
        automatic_match("Tamron", "SP 70-200mm F/2.8 Di VC USD G2", &other_range, true),
        LensMatchKind::NoMatch
    );
}

#[test]
fn lens_lists_sort_case_insensitively_and_drop_repeats() {
    let mut lenses = vec![lens("Sigma", "b"), lens("canon", "X"), lens("Canon", "x"), lens("Canon", "a")];
    sort_and_deduplicate_lenses(&mut lenses);
    assert_eq!(lenses, vec![lens("Canon", "a"), lens("canon", "X"), lens("Sigma", "b")]);
}
