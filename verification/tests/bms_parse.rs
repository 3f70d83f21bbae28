use wakamore::bms::{bms_text_readable, parse_bms, parse_header_key, HeaderKey};

const SAMPLE: &str = "*---------------------- HEADER FIELD\n\
#PLAYER 1\n\
#GENRE test\n\
#TITLE skin test\n\
#ARTIST someone\n\
#BPM 120\n\
#WAV01 1_000.ogg\n\
#WAV0A 1_010.ogg\n\
#BMP01 back.bmp\n\
#STAGEFILE \"stage.png\"\n\
\n\
*---------------------- MAIN DATA FIELD\n\
#00111:00010000\n\
#00258:01000200\n\
#00319:0100\n";

#[test]
fn parse_test_bms() {
    let b = parse_bms(SAMPLE).expect("parse error");

    assert_eq!(b.header(&HeaderKey::Title), Some("skin test"));
    assert_eq!(b.header_by_str("BPM"), Some("120"));
    assert_eq!(b.wav(1), Some("1_000.ogg"));

    let m1 = b.measures.get(&1).expect("measure 1 missing");
    let ch11 = m1.iter().find(|c| c.channel == 11).expect("ch11 missing");
    let nonempty_count = ch11.data.iter().filter(|v| v.is_some()).count();
    assert_eq!(nonempty_count, 1);
    assert_eq!(ch11.data.get(1).and_then(|o| o.as_deref()), Some("01"));

    let m2 = b.measures.get(&2).expect("measure 2 missing");
    let ch58 = m2.iter().find(|c| c.channel == 58).expect("ch58 missing");
    let c58_nonempty = ch58.data.iter().filter(|v| v.is_some()).count();
    assert!(c58_nonempty >= 2);

    let m3 = b.measures.get(&3).expect("measure 3 missing");
    let ch19 = m3.iter().find(|c| c.channel == 19).expect("ch19 missing");
    assert_eq!(ch19.data.get(0).and_then(|o| o.as_deref()), Some("01"));
}

#[test]
fn header_helpers() {
    let b = parse_bms(SAMPLE).unwrap();
    assert_eq!(b.header_by_str("wav0a"), Some("1_010.ogg"));
    assert_eq!(b.wav(10), Some("1_010.ogg"));
    assert_eq!(b.bmp(1), Some("back.bmp"));
    assert_eq!(b.stagefile(), Some("stage.png"));
    assert_eq!(b.header(&HeaderKey::Artist), Some("someone"));
    assert_eq!(b.header(&HeaderKey::Player), Some("1"));
    assert_eq!(b.header(&HeaderKey::Subtitle), None);
    assert_eq!(b.wav(2), None);
    assert_eq!(b.headers.len(), 9);
}

#[test]
fn later_header_replaces_earlier() {
    let b = parse_bms("#TITLE first\n#title second\n").unwrap();
    assert_eq!(b.header(&HeaderKey::Title), Some("second"));
    assert_eq!(b.headers.len(), 1);
}

#[test]
fn channel_lines_accumulate_in_order() {
    let b = parse_bms("#00111:01\n#00112:0203\n#00111:0400\n").unwrap();
    let m1 = b.measures.get(&1).unwrap();
    assert_eq!(m1.len(), 3);
    assert_eq!(m1[0].channel, 11);
    assert_eq!(m1[1].channel, 12);
    assert_eq!(m1[2].channel, 11);
    assert_eq!(m1[1].data, vec![Some("02".to_string()), Some("03".to_string())]);
    assert_eq!(m1[2].data, vec![Some("04".to_string()), None]);
}

#[test]
fn payload_odd_byte_is_ignored() {
    let b = parse_bms("#00211:01023").unwrap();
    let m = b.measures.get(&2).unwrap();
    assert_eq!(m[0].data, vec![Some("01".to_string()), Some("02".to_string())]);
}

#[test]
fn colon_header_falls_back_to_header() {
    let b = parse_bms("#COMMENT obj : LTFE\n").unwrap();
    assert_eq!(b.header(&HeaderKey::Comment), Some("obj : LTFE"));
    assert!(b.measures.is_empty());
}

#[test]
fn plus_sign_and_channel_overflow() {
    // "+01" is a measure number for u32 parsing; channel 256 does not fit a byte.
    let b = parse_bms("#+0111:01\n#001256:01\n").unwrap();
    assert_eq!(b.measures.get(&1).unwrap()[0].channel, 11);
    assert_eq!(b.measures.len(), 1);
    assert_eq!(b.header_by_str("001256:01"), Some(""));
}

#[test]
fn skipped_lines() {
    let b = parse_bms("  \n*#TITLE x\nTITLE y\n   #BPM  150  \r\n").unwrap();
    assert_eq!(b.header(&HeaderKey::Title), None);
    assert_eq!(b.header(&HeaderKey::Bpm), Some("150"));
    assert_eq!(b.headers.len(), 1);
}

#[test]
fn header_without_value_and_quotes() {
    let b = parse_bms("#LNTYPE\n#GENRE \"\"quoted\"\"\n").unwrap();
    assert_eq!(b.header(&HeaderKey::LnType), Some(""));
    assert_eq!(b.header(&HeaderKey::Genre), Some("quoted"));
}

#[test]
fn empty_text_gives_empty_chart() {
    let b = parse_bms("").unwrap();
    assert!(b.headers.is_empty());
    assert!(b.measures.is_empty());
}

#[test]
fn two_byte_characters_fill_a_slot() {
    let b = parse_bms("#00111:é01").unwrap();
    let m = b.measures.get(&1).unwrap();
    assert_eq!(m[0].data, vec![Some("é".to_string()), Some("01".to_string())]);
}

#[test]
fn non_ascii_titles_are_read() {
    let b = parse_bms("#TITLE 曲名\n").unwrap();
    assert_eq!(b.header(&HeaderKey::Title), Some("曲名"));
}

#[test]
fn unreadable_texts_are_reported() {
    assert!(bms_text_readable(SAMPLE));
    assert!(bms_text_readable("#TITLE 曲名\n"));
    // The measure digits would end inside a character.
    assert!(!bms_text_readable("#0曲1:01"));
    // A three-byte character where a two-byte slot would be cut.
    assert!(!bms_text_readable("#00111:曲1"));
    // The same text is harmless on a header line.
    assert!(bms_text_readable("#TITLE 0曲1"));
}

#[test]
fn header_keys_are_read() {
    assert_eq!(parse_header_key(" title "), HeaderKey::Title);
    assert_eq!(parse_header_key("PlayLevel"), HeaderKey::PlayLevel);
    assert_eq!(parse_header_key("stagefile"), HeaderKey::StageFile);
    assert_eq!(parse_header_key("WAV0A"), HeaderKey::Wav(10));
    assert_eq!(parse_header_key("wavff"), HeaderKey::Wav(255));
    assert_eq!(parse_header_key("WAV+1"), HeaderKey::Wav(1));
    assert_eq!(parse_header_key("BMP0001"), HeaderKey::Bmp(1));
    assert_eq!(parse_header_key("WAV100"), HeaderKey::Other("WAV100".to_string()));
    assert_eq!(parse_header_key("WAV"), HeaderKey::Other("WAV".to_string()));
    assert_eq!(parse_header_key("wavzz"), HeaderKey::Other("WAVZZ".to_string()));
    assert_eq!(parse_header_key("bgm"), HeaderKey::Other("BGM".to_string()));
    assert_eq!("total".parse::<HeaderKey>(), Ok(HeaderKey::Total));
    assert_eq!(HeaderKey::from_key_str("rank"), HeaderKey::Rank);
}

#[test]
fn key_text_round_trip() {
    for text in ["title", "wav0a", "WAV0001", "bmpff", "misc", " genre ", "wavzz", "BMP"] {
        let k = parse_header_key(text);
        assert_eq!(parse_header_key(&k.to_key_string()), k);
    }
    assert_eq!(HeaderKey::Wav(10).to_key_string(), "WAV0A");
    assert_eq!(HeaderKey::Bmp(255).to_key_string(), "BMPFF");
    assert_eq!(HeaderKey::SubArtist.to_key_string(), "SUBARTIST");
    assert_eq!(HeaderKey::Other("X".to_string()).to_key_string(), "X");
}

#[test]
fn reading_joined_texts() {
    let a = "#TITLE a\n#00111:01";
    let b = "#TITLE b\n#00111:02";
    let joined = format!("{}\n{}", a, b);
    let whole = parse_bms(&joined).unwrap();
    assert_eq!(whole.header(&HeaderKey::Title), Some("b"));
    let m = whole.measures.get(&1).unwrap();
    assert_eq!(m.len(), 2);
    assert_eq!(m[0].data, vec![Some("01".to_string())]);
    assert_eq!(m[1].data, vec![Some("02".to_string())]);
}

#[test]
fn header_key_from_text() {
    assert_eq!(HeaderKey::from("  playlevel "), HeaderKey::PlayLevel);
    assert_eq!(HeaderKey::from("wav0a"), HeaderKey::Wav(10));
    assert_eq!(HeaderKey::from("foo"), HeaderKey::Other("FOO".to_string()));
    let k: HeaderKey = "Bmp01".into();
    assert_eq!(k, HeaderKey::Bmp(1));
}

#[test]
fn written_keys_read_back() {
    for k in [
        HeaderKey::Wav(10),
        HeaderKey::Bmp(255),
        HeaderKey::LnType,
        HeaderKey::StageFile,
        HeaderKey::Wav(0),
    ] {
        assert_eq!(parse_header_key(&k.to_key_string()), k);
    }
    assert_eq!(HeaderKey::Wav(10).to_key_string(), "WAV0A");
    assert_eq!(HeaderKey::Bmp(255).to_key_string(), "BMPFF");
}

#[test]
fn key_reading_ignores_case_and_blanks() {
    for s in ["Title", "  wav0A\t", "Comment ", "bmpzz", " something else "] {
        let k = parse_header_key(s);
        assert_eq!(parse_header_key(&s.trim().to_ascii_lowercase()), k);
        assert_eq!(parse_header_key(&s.to_ascii_uppercase()), k);
    }
    assert_eq!(
        parse_header_key(" something else "),
        HeaderKey::Other("SOMETHING ELSE".to_string())
    );
}

#[test]
fn skipped_lines_change_nothing() {
    let base = "#TITLE a\n#00111:0101\n#00111:01";
    let with = "#TITLE a\n* comment\n\n#00111:0101\nplain text\n#00111:01\n   ";
    let x = parse_bms(base).unwrap();
    let y = parse_bms(with).unwrap();
    assert_eq!(x.header(&HeaderKey::Title), y.header(&HeaderKey::Title));
    assert_eq!(x.headers.len(), y.headers.len());
    let cx = x.measures.get(&1).unwrap();
    let cy = y.measures.get(&1).unwrap();
    assert_eq!(cx.len(), 2);
    assert_eq!(cy.len(), 2);
    for (p, q) in cx.iter().zip(cy.iter()) {
        assert_eq!(p.channel, q.channel);
        assert_eq!(p.data, q.data);
    }
    assert_eq!(x.measures.len(), y.measures.len());
}
