use password_maker::{
    format_passwords, generate_passwords, set_classifiers, MakerOptions, PasswordMaker,
    RandomSource,
};
use unicode_segmentation::UnicodeSegmentation;

#[test]
fn default_password_generation() {
    let args = MakerOptions::default();

    let passwords = generate_passwords(&args, &mut RandomSource::from_entropy()).unwrap();
    assert_eq!(passwords.len(), 1);
    // By default every candidate is one byte, so len() counts characters.
    assert_eq!(passwords[0].len(), 16);
}

#[test]
fn multiple_password_generation() {
    let args = MakerOptions {
        count: 5,
        ..Default::default()
    };

    let passwords = generate_passwords(&args, &mut RandomSource::from_entropy()).unwrap();
    assert_eq!(passwords.len(), 5);

    let unique_passwords: std::collections::HashSet<_> = passwords.iter().collect();
    assert_eq!(passwords.len(), unique_passwords.len());
}

#[test]
fn password_with_other_characters() {
    // Include surrogate pairs, variation selectors, combining characters,
    // zero-width joiners and flag sequences among the candidates.
    let args = MakerOptions {
        other_candidates: Some(vec![
            Vec::from("😀🚀🐱"),
            Vec::from("花󠄁龍󠄀舟󠄁👍🏿"),
            Vec::from("áパぎ"),
            Vec::from("🏳️‍🌈❤️‍🔥👨‍👩‍👦"),
            Vec::from("🇯🇵🇺🇸🇲🇦🇨🇦"),
        ]),
        other_minimum_count: Some(vec![1, 2, 3, 4, 2]),
        ..Default::default()
    };

    let passwords = generate_passwords(&args, &mut RandomSource::from_entropy()).unwrap();
    println!("{}", passwords[0]);

    assert_eq!(passwords.len(), 1);
    assert_eq!(passwords[0].graphemes(true).count(), 16);

    let count_rocket = passwords[0].matches("🚀").count();
    let count_cat = passwords[0].matches("🐱").count();
    let count_smile = passwords[0].matches("😀").count();
    assert!(1 <= count_rocket + count_cat + count_smile);

    let count_hana = passwords[0].matches("花󠄁").count();
    let count_ryu = passwords[0].matches("龍󠄀").count();
    let count_fune = passwords[0].matches("舟󠄁").count();
    let count_ok = passwords[0].matches("👍🏿").count();
    assert!(2 <= count_hana + count_ryu + count_fune + count_ok);

    let count_a = passwords[0].matches("á").count();
    let count_pa = passwords[0].matches("パ").count();
    let count_ki = passwords[0].matches("ぎ").count();
    assert!(3 <= count_a + count_pa + count_ki);

    let count_rainbow = passwords[0].matches("🏳️‍🌈").count();
    let count_fire = passwords[0].matches("❤️‍🔥").count();
    let count_family = passwords[0].matches("👨‍👩‍👦").count();
    assert!(4 <= count_rainbow + count_fire + count_family);

    let count_jp = passwords[0].matches("🇯🇵").count();
    let count_us = passwords[0].matches("🇺🇸").count();
    let count_ma = passwords[0].matches("🇲🇦").count();
    let count_ca = passwords[0].matches("🇨🇦").count();
    assert!(2 <= count_jp + count_us + count_ma + count_ca);
}

#[test]
fn generate_passwords_err() {
    let args = MakerOptions {
        length: 0,
        ..Default::default()
    };

    let result = generate_passwords(&args, &mut RandomSource::from_entropy());
    assert!(result.is_err());
}

#[test]
fn format_passwords_with_null_separator() {
    let passwords = vec!["password1".to_string(), "password2".to_string()];
    let formatted = format_passwords(passwords, true);
    assert_eq!(formatted, "password1\0password2\0");
}

#[test]
fn format_passwords_with_newline_separator() {
    let passwords = vec!["password1".to_string(), "password2".to_string()];
    let formatted = format_passwords(passwords, false);
    assert_eq!(formatted, "password1\npassword2\n");
}

#[test]
fn format_passwords_without_passwords() {
    let formatted = format_passwords(vec![], false);
    assert_eq!(formatted, "\n");
}

#[test]
fn set_classifiers_utf8() {
    let mut maker = PasswordMaker::default();
    let args = MakerOptions {
        uppercase_candidates: Vec::from("ABC"),
        uppercase_minimum_count: 2,
        lowercase_candidates: Vec::from("abc"),
        lowercase_minimum_count: 3,
        number_candidates: Vec::from("123"),
        number_minimum_count: 4,
        symbol_candidates: Vec::from("!@#"),
        symbol_minimum_count: 5,
        other_candidates: Some(vec![Vec::from("😀👨‍👩‍👦😂"), Vec::from("あいう")]),
        other_minimum_count: Some(vec![6, 7]),
        ..Default::default()
    };

    set_classifiers(&mut maker, &args).unwrap();

    assert_eq!(maker.uppercase.candidates, vec!["A", "B", "C"]);
    assert_eq!(maker.uppercase.minimum_count, 2);
    assert_eq!(maker.lowercase.candidates, vec!["a", "b", "c"]);
    assert_eq!(maker.lowercase.minimum_count, 3);
    assert_eq!(maker.number.candidates, vec!["1", "2", "3"]);
    assert_eq!(maker.number.minimum_count, 4);
    assert_eq!(maker.symbol.candidates, vec!["!", "@", "#"]);
    assert_eq!(maker.symbol.minimum_count, 5);
    assert_eq!(maker.others.len(), 2);
    assert_eq!(maker.others[0].candidates, vec!["😀", "👨‍👩‍👦", "😂"]);
    assert_eq!(maker.others[0].minimum_count, 6);
    assert_eq!(maker.others[1].candidates, vec!["あ", "い", "う"]);
    assert_eq!(maker.others[1].minimum_count, 7);
}

#[test]
fn set_classifiers_shift_jis() {
    let mut maker = PasswordMaker::default();
    let args = MakerOptions {
        // Shift_JIS for "あいうえお"
        uppercase_candidates: vec![0x82, 0xA0, 0x82, 0xA2, 0x82, 0xA4, 0x82, 0xA6, 0x82, 0xA8],
        // Shift_JIS for "アイウエオ"
        lowercase_candidates: vec![0x83, 0x41, 0x83, 0x43, 0x83, 0x45, 0x83, 0x47, 0x83, 0x49],
        // Shift_JIS for "ｱｲｳｴｵ"
        number_candidates: vec![0xB1, 0xB2, 0xB3, 0xB4, 0xB5],
        // Shift_JIS for "ｧｨｩｪｫ"
        symbol_candidates: vec![0xA7, 0xA8, 0xA9, 0xAA, 0xAB],
        // Shift_JIS for "ａｉｕｅｏ" and "安以宇衣於"
        other_candidates: Some(vec![
            vec![0x82, 0x81, 0x82, 0x89, 0x82, 0x95, 0x82, 0x85, 0x82, 0x8f],
            vec![0x88, 0xC0, 0x88, 0xC8, 0x89, 0x46, 0x88, 0xDF, 0x89, 0x97],
        ]),
        encoding: "shift_jis".to_string(),
        ..Default::default()
    };

    set_classifiers(&mut maker, &args).unwrap();

    assert_eq!(
        maker.uppercase.candidates,
        vec!["あ", "い", "う", "え", "お"]
    );

    assert_eq!(
        maker.lowercase.candidates,
        vec!["ア", "イ", "ウ", "エ", "オ"]
    );

    assert_eq!(maker.number.candidates, vec!["ｱ", "ｲ", "ｳ", "ｴ", "ｵ"]);

    assert_eq!(maker.symbol.candidates, vec!["ｧ", "ｨ", "ｩ", "ｪ", "ｫ"]);

    assert_eq!(maker.others.len(), 2);
    assert_eq!(
        maker.others[0].candidates,
        vec!["ａ", "ｉ", "ｕ", "ｅ", "ｏ"]
    );
    assert_eq!(
        maker.others[1].candidates,
        vec!["安", "以", "宇", "衣", "於"]
    );
}

#[test]
fn set_classifiers_empty() {
    {
        let mut maker = PasswordMaker::default();
        let args = MakerOptions {
            uppercase_candidates: Vec::from(""),
            lowercase_candidates: Vec::from(""),
            number_candidates: Vec::from(""),
            symbol_candidates: Vec::from(""),
            ..Default::default()
        };

        set_classifiers(&mut maker, &args).unwrap();

        assert!(maker.uppercase.candidates.is_empty());
        assert_eq!(maker.uppercase.minimum_count, 0);
        assert!(maker.lowercase.candidates.is_empty());
        assert_eq!(maker.lowercase.minimum_count, 0);
        assert!(maker.number.candidates.is_empty());
        assert_eq!(maker.number.minimum_count, 0);
        assert!(maker.symbol.candidates.is_empty());
        assert_eq!(maker.symbol.minimum_count, 0);
        assert!(maker.others.is_empty());
    }

    {
        let mut maker = PasswordMaker::default();

        let args = MakerOptions {
            uppercase_candidates: Vec::from(""),
            uppercase_minimum_count: 1,
            lowercase_candidates: Vec::from(""),
            lowercase_minimum_count: 2,
            number_candidates: Vec::from(""),
            number_minimum_count: 3,
            symbol_candidates: Vec::from(""),
            symbol_minimum_count: 4,
            ..Default::default()
        };

        set_classifiers(&mut maker, &args).unwrap();

        assert!(maker.uppercase.candidates.is_empty());
        assert_eq!(maker.uppercase.minimum_count, 0);
        assert!(maker.lowercase.candidates.is_empty());
        assert_eq!(maker.lowercase.minimum_count, 0);
        assert!(maker.number.candidates.is_empty());
        assert_eq!(maker.number.minimum_count, 0);
        assert!(maker.symbol.candidates.is_empty());
        assert_eq!(maker.symbol.minimum_count, 0);
        assert!(maker.others.is_empty());
    }
}

#[test]
fn set_classifiers_err() {
    let mut maker = PasswordMaker::default();
    let args = MakerOptions {
        uppercase_candidates: Vec::from("ABC"),
        encoding: "invalid".to_string(),
        ..Default::default()
    };

    let result = set_classifiers(&mut maker, &args);
    assert_eq!(result, Err("Unsupported encoding: invalid".to_string()));
}

#[test]
fn set_classifiers_omit_other_minimum_count() {
    {
        let mut maker = PasswordMaker::default();
        let args = MakerOptions {
            other_candidates: None,
            ..Default::default()
        };

        set_classifiers(&mut maker, &args).unwrap();

        assert!(maker.others.is_empty());
    }

    {
        let mut maker = PasswordMaker::default();
        let args = MakerOptions {
            other_candidates: Some(vec![Vec::from("😀👨‍👩‍👦😂")]),
            ..Default::default()
        };

        set_classifiers(&mut maker, &args).unwrap();

        assert_eq!(maker.others.len(), 1);
        assert_eq!(maker.others[0].candidates, vec!["😀", "👨‍👩‍👦", "😂"]);
        assert_eq!(maker.others[0].minimum_count, 0);
    }

    {
        let mut maker = PasswordMaker::default();
        let args = MakerOptions {
            other_candidates: Some(vec![Vec::from("😀👨‍👩‍👦😂"), Vec::from("あいう")]),
            ..Default::default()
        };

        set_classifiers(&mut maker, &args).unwrap();

        assert_eq!(maker.others.len(), 2);
        assert_eq!(maker.others[0].candidates, vec!["😀", "👨‍👩‍👦", "😂"]);
        assert_eq!(maker.others[0].minimum_count, 0);

        assert_eq!(maker.others[1].candidates, vec!["あ", "い", "う"]);
        assert_eq!(maker.others[1].minimum_count, 0);
    }

    {
        let mut maker = PasswordMaker::default();
        let args = MakerOptions {
            other_candidates: Some(vec![Vec::from("😀👨‍👩‍👦😂"), Vec::from("あいう")]),
            other_minimum_count: Some(vec![6]),
            ..Default::default()
        };

        set_classifiers(&mut maker, &args).unwrap();

        assert_eq!(maker.others.len(), 2);
        assert_eq!(maker.others[0].candidates, vec!["😀", "👨‍👩‍👦", "😂"]);
        assert_eq!(maker.others[0].minimum_count, 6);

        assert_eq!(maker.others[1].candidates, vec!["あ", "い", "う"]);
        assert_eq!(maker.others[1].minimum_count, 0);
    }

    {
        let mut maker = PasswordMaker::default();
        let args = MakerOptions {
            other_candidates: Some(vec![Vec::from("😀👨‍👩‍👦😂"), Vec::from("あいう")]),
            other_minimum_count: Some(vec![1, 2]),
            ..Default::default()
        };

        set_classifiers(&mut maker, &args).unwrap();

        assert_eq!(maker.others.len(), 2);
        assert_eq!(maker.others[0].candidates, vec!["😀", "👨‍👩‍👦", "😂"]);
        assert_eq!(maker.others[0].minimum_count, 1);

        assert_eq!(maker.others[1].candidates, vec!["あ", "い", "う"]);
        assert_eq!(maker.others[1].minimum_count, 2);
    }

    {
        let mut maker = PasswordMaker::default();
        let args = MakerOptions {
            other_candidates: Some(vec![Vec::from("😀👨‍👩‍👦😂"), Vec::from("あいう")]),
            other_minimum_count: Some(vec![1, 2, 3]),
            ..Default::default()
        };

        set_classifiers(&mut maker, &args).unwrap();

        assert_eq!(maker.others.len(), 3);
        assert_eq!(maker.others[0].candidates, vec!["😀", "👨‍👩‍👦", "😂"]);
        assert_eq!(maker.others[0].minimum_count, 1);

        assert_eq!(maker.others[1].candidates, vec!["あ", "い", "う"]);
        assert_eq!(maker.others[1].minimum_count, 2);

        assert_eq!(maker.others[2].candidates, Vec::<String>::new());
        assert_eq!(maker.others[2].minimum_count, 3);
    }
}
