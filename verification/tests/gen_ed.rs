use course_catalog::gen_ed::{GenEds, PE, PR};

#[test]
fn every_plain_code_maps_to_its_requirement() {
    assert_eq!(GenEds::from_str("MF"), Some(GenEds::MF));
    assert_eq!(GenEds::from_str("CC"), Some(GenEds::CC));
    assert_eq!(GenEds::from_str("ER"), Some(GenEds::ER));
    assert_eq!(GenEds::from_str("IM"), Some(GenEds::IM));
    assert_eq!(GenEds::from_str("SI"), Some(GenEds::SI));
    assert_eq!(GenEds::from_str("SR"), Some(GenEds::SR));
    assert_eq!(GenEds::from_str("TA"), Some(GenEds::TA));
    assert_eq!(GenEds::from_str("C1"), Some(GenEds::C1));
    assert_eq!(GenEds::from_str("C2"), Some(GenEds::C2));
}

#[test]
fn every_family_code_maps_to_its_member() {
    assert_eq!(GenEds::from_str("PE-E"), Some(GenEds::PE(PE::E)));
    assert_eq!(GenEds::from_str("PE-H"), Some(GenEds::PE(PE::H)));
    assert_eq!(GenEds::from_str("PE-T"), Some(GenEds::PE(PE::T)));
    assert_eq!(GenEds::from_str("PR-E"), Some(GenEds::PR(PR::E)));
    assert_eq!(GenEds::from_str("PR-C"), Some(GenEds::PR(PR::C)));
    assert_eq!(GenEds::from_str("PR-S"), Some(GenEds::PR(PR::S)));
}

#[test]
fn family_code_maps_to_nested_variant() {
    assert_eq!(GenEds::from_str("PE-H"), Some(GenEds::PE(PE::H)));
}

#[test]
fn unknown_code_maps_to_none() {
    assert_eq!(GenEds::from_str("ZZ"), None);
}

#[test]
fn near_misses_map_to_none() {
    for code in [
        "", "M", "MFF", "mf", "Mf", " MF", "MF ", "C3", "C0", "PE", "PR", "PE-", "PE-X", "PE-C",
        "PE-S", "PR-H", "PR-T", "PE_H", "PEH", "pe-h", "PX-E", "XE-E", "PE-HH", "PE-E ", "P-EE",
        "1C", "AT", "RS",
    ] {
        assert_eq!(GenEds::from_str(code), None, "{:?}", code);
    }
}
