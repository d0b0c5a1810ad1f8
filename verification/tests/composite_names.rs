use frame_contrib::composite_names::{
    camel_case, check_name, composite_type_name, variant_name, GenericArgumentKind, NameArguments,
    NameError,
};

fn chars(s: &str) -> Vec<char> {
    s.chars().collect()
}

fn text(v: &[char]) -> String {
    v.iter().collect()
}

#[test]
fn a_path_becomes_an_upper_camel_case_variant() {
    let path = vec![chars("pallet_webauthn"), chars("Authenticator")];
    assert_eq!(text(&variant_name(&path)), "PalletWebauthnAuthenticator");
    let path = vec![chars("dummy_authenticator")];
    assert_eq!(text(&variant_name(&path)), "DummyAuthenticator");
    assert_eq!(text(&variant_name(&vec![])), "");
}

#[test]
fn underscores_are_dropped_and_start_a_capital() {
    assert_eq!(text(&camel_case(&chars("abc"))), "Abc");
    assert_eq!(text(&camel_case(&chars("a__b_c"))), "ABC");
    assert_eq!(text(&camel_case(&chars("_x1_y"))), "X1Y");
    assert_eq!(text(&camel_case(&chars("___"))), "");
    assert_eq!(text(&camel_case(&chars("ÿes"))), "Ÿes");
}

#[test]
fn the_composite_types_are_named_after_it() {
    let name = chars("Pass");
    assert_eq!(text(&composite_type_name(&name, "Authenticator")), "PassAuthenticator");
    assert_eq!(text(&composite_type_name(&name, "DeviceAttestation")), "PassDeviceAttestation");
    assert_eq!(text(&composite_type_name(&name, "Device")), "PassDevice");
    assert_eq!(text(&composite_type_name(&name, "Credential")), "PassCredential");
}

#[test]
fn the_name_is_one_identifier_with_the_authority_as_its_argument() {
    let authority = NameArguments::AngleBracketed(vec![GenericArgumentKind::TypePath]);
    assert_eq!(check_name(false, 1, &authority), Ok(()));
    assert_eq!(check_name(true, 1, &authority), Err(NameError::ExpectedName));
    assert_eq!(check_name(false, 2, &authority), Err(NameError::ExpectedName));
    assert_eq!(
        check_name(false, 1, &NameArguments::AngleBracketed(vec![GenericArgumentKind::Other])),
        Err(NameError::AuthorityNotAPath)
    );
    assert_eq!(
        check_name(
            false,
            1,
            &NameArguments::AngleBracketed(vec![GenericArgumentKind::TypePath, GenericArgumentKind::TypePath])
        ),
        Err(NameError::ExpectedSingleParameter)
    );
    assert_eq!(check_name(false, 1, &NameArguments::Bare), Err(NameError::ExpectedSingleParameter));
    assert_eq!(check_name(false, 1, &NameArguments::Parenthesized), Err(NameError::ExpectedSingleParameter));
}
