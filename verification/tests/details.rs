use multispectral_filter::image_details::{
    extract_image_details, ImageIllumination, ImageType, NameError, PCAFlag, PcaChannel,
};

#[test]
fn pack8_led_wavelength() {
    let d = extract_image_details("folio12_003_365").unwrap();
    assert_eq!(d.image_type, ImageType::Pack8);
    assert_eq!(d.illumination, vec![ImageIllumination::LED(365)]);
}

#[test]
fn pack8_named_filter() {
    let d = extract_image_details("folio12_003_CFUX").unwrap();
    assert_eq!(d.image_type, ImageType::Pack8);
    assert_eq!(d.illumination, vec![ImageIllumination::CFUX]);
}

#[test]
fn sequence_extension_is_skipped() {
    let d = extract_image_details("folio12_003_B_color").unwrap();
    assert_eq!(d.image_type, ImageType::Color);
    assert!(d.illumination.is_empty());
}

#[test]
fn color_image() {
    let d = extract_image_details("folio12_003_color").unwrap();
    assert_eq!(d.image_type, ImageType::Color);
    assert!(d.illumination.is_empty());
}

#[test]
fn pca_single_component() {
    let d = extract_image_details("folio12_003_pca_C5").unwrap();
    assert_eq!(d.image_type, ImageType::PCA(PCAFlag::C(5)));
    assert!(d.illumination.is_empty());
}

#[test]
fn pca_two_digit_flag_parses_as_component() {
    // A two-byte flag is stripped of leading `C`s and read as a number, so
    // `55` is component 55.
    let d = extract_image_details("folio12_003_pca_55").unwrap();
    assert_eq!(d.image_type, ImageType::PCA(PCAFlag::C(55)));
}

#[test]
fn pca_rgb_components_with_inversion() {
    let d = extract_image_details("folio12_003_pca_rgb-1-inv2-3").unwrap();
    assert_eq!(
        d.image_type,
        ImageType::PCA(PCAFlag::RGB(
            PcaChannel { inverted: false, value: 1 },
            PcaChannel { inverted: true, value: 2 },
            PcaChannel { inverted: false, value: 3 },
        ))
    );
}

#[test]
fn pseudo_with_illumination_list() {
    let d = extract_image_details("folio12_003_pseudo_RAIR-520").unwrap();
    assert_eq!(d.image_type, ImageType::Pseudo);
    assert_eq!(
        d.illumination,
        vec![ImageIllumination::RAIR, ImageIllumination::LED(520)]
    );
}

#[test]
fn sharpie_with_filters() {
    let d = extract_image_details("f_0_sharpie_CFUR-CFUG").unwrap();
    assert_eq!(d.image_type, ImageType::Sharpie);
    assert_eq!(
        d.illumination,
        vec![ImageIllumination::CFUR, ImageIllumination::CFUG]
    );
}

#[test]
fn csharpie_drops_unknown_list_entries() {
    let d = extract_image_details("f_0_csharpie_CFBB-nope-470").unwrap();
    assert_eq!(d.image_type, ImageType::CSharpie);
    assert_eq!(
        d.illumination,
        vec![ImageIllumination::CFBB, ImageIllumination::LED(470)]
    );
}

#[test]
fn led_with_leading_zeros() {
    let d = extract_image_details("folio12_003_0040").unwrap();
    assert_eq!(d.image_type, ImageType::Pack8);
    assert_eq!(d.illumination, vec![ImageIllumination::LED(40)]);
}

#[test]
fn extension_then_led() {
    let d = extract_image_details("folio12_003_A_365").unwrap();
    assert_eq!(d.image_type, ImageType::Pack8);
    assert_eq!(d.illumination, vec![ImageIllumination::LED(365)]);
}

#[test]
fn trailing_tokens_are_ignored() {
    let d = extract_image_details("folio12_003_color_junk").unwrap();
    assert_eq!(d.image_type, ImageType::Color);
}

#[test]
fn pca_all_cs_flag_is_malformed() {
    assert_eq!(
        extract_image_details("folio12_003_pca_CC").unwrap_err(),
        NameError::MalformedPcaFlag
    );
}

#[test]
fn error_missing_sequence() {
    assert_eq!(
        extract_image_details("folio12").unwrap_err(),
        NameError::MissingSequence
    );
}

#[test]
fn error_missing_processing() {
    assert_eq!(
        extract_image_details("folio12_003").unwrap_err(),
        NameError::MissingProcessing
    );
    assert_eq!(
        extract_image_details("folio12_003_A").unwrap_err(),
        NameError::MissingProcessing
    );
}

#[test]
fn error_missing_pca_flag() {
    assert_eq!(
        extract_image_details("folio12_003_pca").unwrap_err(),
        NameError::MissingPcaFlag
    );
}

#[test]
fn error_malformed_pca_flag() {
    assert_eq!(
        extract_image_details("folio12_003_pca_zz").unwrap_err(),
        NameError::MalformedPcaFlag
    );
    assert_eq!(
        extract_image_details("folio12_003_pca_rgb-1-2").unwrap_err(),
        NameError::MalformedPcaFlag
    );
}

#[test]
fn error_missing_illumination() {
    assert_eq!(
        extract_image_details("folio12_003_pseudo").unwrap_err(),
        NameError::MissingIllumination
    );
}

#[test]
fn error_unknown_processing() {
    assert_eq!(
        extract_image_details("folio12_003_bogus").unwrap_err(),
        NameError::UnknownProcessing
    );
}

#[test]
fn illumination_from_tokens() {
    assert_eq!(ImageIllumination::from("RAIR"), Some(ImageIllumination::RAIR));
    assert_eq!(ImageIllumination::from("RABL"), Some(ImageIllumination::RABL));
    assert_eq!(ImageIllumination::from("940"), Some(ImageIllumination::LED(940)));
    assert_eq!(ImageIllumination::from("+12"), Some(ImageIllumination::LED(12)));
    assert_eq!(ImageIllumination::from("70000"), None);
    assert_eq!(ImageIllumination::from("RAIRX"), None);
    assert_eq!(ImageIllumination::from(""), None);
}
