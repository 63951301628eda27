use bep_rs::device_id::{
    chunkify, codepoint32, deviceid_from_string, deviceid_to_base32, deviceid_to_string,
    deviceid_try_from_string, luhn_check, luhnify, remove_char, syncthing_luhn32, unchunkify,
    unluhnify,
};
use bep_rs::DeviceID;
use data_encoding::BASE32_NOPAD;

#[test]
fn test_convert_id() {
    let id: [u8; 32] = [
        1, 2, 3, 4, 5, 6, 7, 8, 9, 10, 11, 12, 13, 14, 15, 16, 17, 18, 19, 20, 21, 22, 23, 24, 25,
        26, 27, 28, 29, 30, 31, 32,
    ];
    let str = deviceid_to_string(&id);
    let byt = deviceid_from_string(&str);
    assert_eq!(byt, id);

    let bytes: DeviceID = BASE32_NOPAD
        .decode(b"DOTMVXYJJDOMO4QTANVMLDQX6HEKDOHU4J2MG6UAGRQAJFNIYSNQ")
        .unwrap()
        .try_into()
        .unwrap();
    let deviceid = "DOTMVXY-JJDOMOF-4QTANVM-LDQX6HX-EKDOHU4-J2MG6UC-AGRQAJF-NIYSNQ4";
    assert_eq!(deviceid_to_string(&bytes), deviceid);
    assert_eq!(bytes, deviceid_from_string(deviceid));
}

#[test]
fn codepoint_values() {
    assert_eq!(codepoint32('A'), 0);
    assert_eq!(codepoint32('Z'), 25);
    assert_eq!(codepoint32('2'), 26);
    assert_eq!(codepoint32('7'), 31);
}

#[test]
fn luhn_check_characters() {
    assert_eq!(syncthing_luhn32("DOTMVXYJJDOMO"), 'F');
    assert_eq!(syncthing_luhn32("4QTANVMLDQX6H"), 'X');
    assert_eq!(syncthing_luhn32("EKDOHU4J2MG6U"), 'C');
    assert_eq!(syncthing_luhn32("AGRQAJFNIYSNQ"), '4');
}

#[test]
fn luhnify_then_unluhnify() {
    let plain = "DOTMVXYJJDOMO4QTANVMLDQX6HEKDOHU4J2MG6UAGRQAJFNIYSNQ";
    let with_checks = luhnify(plain);
    assert_eq!(with_checks, "DOTMVXYJJDOMOF4QTANVMLDQX6HXEKDOHU4J2MG6UCAGRQAJFNIYSNQ4");
    assert!(luhn_check(&with_checks));
    assert_eq!(unluhnify(&with_checks), plain);
}

#[test]
fn chunks_of_seven() {
    let s = chunkify("DOTMVXYJJDOMOF4QTANVMLDQX6HXEKDOHU4J2MG6UCAGRQAJFNIYSNQ4");
    assert_eq!(s, "DOTMVXY-JJDOMOF-4QTANVM-LDQX6HX-EKDOHU4-J2MG6UC-AGRQAJF-NIYSNQ4");
    assert_eq!(chunkify("ABCDEFGH"), "ABCDEFG");
    assert_eq!(chunkify("ABCDEFGHIJKLMN"), "ABCDEFG-HIJKLMN");
    assert_eq!(chunkify(""), "");
    assert_eq!(unchunkify(&s), "DOTMVXYJJDOMOF4QTANVMLDQX6HXEKDOHU4J2MG6UCAGRQAJFNIYSNQ4");
    assert_eq!(remove_char("a-b-c", '-'), "abc");
}

#[test]
fn base32_of_device_id() {
    let id = [0u8; 32];
    let s = deviceid_to_base32(&id);
    assert_eq!(s.len(), 52);
    assert_eq!(s, "A".repeat(52));
}

#[test]
fn wrong_check_character_refused() {
    let good = "DOTMVXY-JJDOMOF-4QTANVM-LDQX6HX-EKDOHU4-J2MG6UC-AGRQAJF-NIYSNQ4";
    assert!(deviceid_try_from_string(good).is_some());
    let bad = "DOTMVXY-JJDOMOG-4QTANVM-LDQX6HX-EKDOHU4-J2MG6UC-AGRQAJF-NIYSNQ4";
    assert!(deviceid_try_from_string(bad).is_none());
    assert!(!luhn_check("DOTMVXYJJDOMOG4QTANVMLDQX6HXEKDOHU4J2MG6UCAGRQAJFNIYSNQ4"));
    assert!(deviceid_try_from_string("short").is_none());
}

#[test]
fn every_single_substitution_is_caught() {
    let good = "DOTMVXYJJDOMOF4QTANVMLDQX6HXEKDOHU4J2MG6UCAGRQAJFNIYSNQ4";
    assert!(luhn_check(good));
    let alphabet = "ABCDEFGHIJKLMNOPQRSTUVWXYZ234567";
    for k in 0..56 {
        for c in alphabet.chars() {
            let mut chars: Vec<char> = good.chars().collect();
            if chars[k] == c {
                continue;
            }
            chars[k] = c;
            let altered: String = chars.into_iter().collect();
            assert!(!luhn_check(&altered), "{} passed", altered);
        }
    }
}

#[test]
fn chunks_are_seven_bytes() {
    // "ä" takes two bytes, so the first chunk holds six characters.
    assert_eq!(chunkify("aaaaaäbbbbbbb"), "aaaaaä-bbbbbbb");
    assert_eq!(chunkify("abcdeäxyz"), "abcdeä");
}

#[test]
fn unchunkify_undoes_chunkify() {
    for s in ["", "ABCDEFG", "DOTMVXYJJDOMOF4QTANVMLDQX6HXEKDOHU4J2MG6UCAGRQAJFNIYSNQ4", "aaaaaäbbbbbbb"] {
        assert_eq!(unchunkify(&chunkify(s)), s);
    }
}
