use crustagent::text::{parse_speech, SpeechItem, Tag};

#[test]
fn plain_text() {
    let p = parse_speech("Hello there world");
    assert_eq!(p.display_words, ["Hello", "there", "world"]);
    assert_eq!(p.spoken_text(), "Hello there world");
    assert_eq!(p.display_text(), "Hello there world");
}

#[test]
fn escapes() {
    let p = parse_speech(r#"a\\b \"q\""#);
    assert_eq!(p.display_words, [r"a\b", "\"q\""]);
}

#[test]
fn bookmark_is_speech_only() {
    let p = parse_speech(r"Hi \Mrk=5\ there");
    assert_eq!(p.display_words, ["Hi", "there"]);
    assert_eq!(
        p.speech,
        vec![
            SpeechItem::Word("Hi".into()),
            SpeechItem::Tag(Tag::Bookmark(5)),
            SpeechItem::Word("there".into()),
        ]
    );
    assert_eq!(p.bookmarks().into_iter().collect::<Vec<_>>(), vec![5]);
    assert_eq!(p.bookmark_at, vec![(5, 1)]);
}

#[test]
fn value_tags() {
    let p = parse_speech(r"\Vol=32768\loud \Pau=250\ \Spd=140\fast");
    let tags: Vec<&Tag> = p
        .speech
        .iter()
        .filter_map(|i| match i {
            SpeechItem::Tag(t) => Some(t),
            _ => None,
        })
        .collect();
    assert_eq!(tags[0], &Tag::Volume(32768));
    assert_eq!(tags[1], &Tag::Pause(250));
    assert_eq!(tags[2], &Tag::Speed(140));
    assert_eq!(p.display_words, ["loud", "fast"]);
}

#[test]
fn toggle_tags() {
    let p = parse_speech(r"\Emp\Now \Rst\done");
    assert!(matches!(p.speech[0], SpeechItem::Tag(Tag::Emphasize)));
    assert!(p.speech.iter().any(|i| matches!(i, SpeechItem::Tag(Tag::Reset))));
    assert_eq!(p.display_words, ["Now", "done"]);
}

#[test]
fn map_splits_display_and_speech() {
    let p = parse_speech(r#"\Map="Doctor Smith"="Dr. Smith"\ here"#);
    assert_eq!(p.display_words, ["Dr.", "Smith", "here"]);
    assert_eq!(p.spoken_text(), "Doctor Smith here");
}

#[test]
fn map_spoken_half_is_parsed_recursively() {
    let p = parse_speech(r#"\Map="\Emp\wow"="!"\"#);
    assert_eq!(p.display_words, ["!"]);
    assert_eq!(p.speech, vec![SpeechItem::Tag(Tag::Emphasize), SpeechItem::Word("wow".into())]);
}

#[test]
fn a_doubled_backslash_inside_a_value_is_not_the_end_of_the_tag() {
    let p = parse_speech(r#"\Ctx="a\\b"\x"#);
    assert_eq!(
        p.speech[0],
        SpeechItem::Tag(Tag::Context(r"a\b".into())),
        "the value runs past the doubled backslash to the real delimiter"
    );
    assert_eq!(p.display_words, ["x"]);
}

#[test]
fn case_insensitive_and_unknown_is_literal() {
    let p = parse_speech(r"\mRk=1\ x \Foo\ y");
    assert_eq!(p.bookmarks().into_iter().collect::<Vec<_>>(), vec![1]);
    assert!(p.display_words.iter().any(|w| w.contains(r"\Foo\")));
}

#[test]
fn numeric_values_are_trimmed_and_clamped() {
    let p = parse_speech(r"\Pau= 300 \ \Vol=-5\ \Spd=99999999999\ok");
    let tags: Vec<&Tag> = p
        .speech
        .iter()
        .filter_map(|i| match i {
            SpeechItem::Tag(t) => Some(t),
            _ => None,
        })
        .collect();
    assert_eq!(tags, vec![&Tag::Pause(300), &Tag::Volume(0), &Tag::Speed(u32::MAX)]);
    assert_eq!(p.display_words, ["ok"]);
}

#[test]
fn malformed_tags_stay_literal() {
    // A bookmark whose value is not a number is not a tag.
    let p = parse_speech(r"\Mrk=x\ y");
    assert!(p.bookmarks().is_empty());
    assert_eq!(p.display_words, [r"\Mrk=x\", "y"]);
    // An unterminated tag is literal text.
    let q = parse_speech(r"\Emp");
    assert_eq!(q.display_words, [r"\Emp"]);
}

#[test]
fn voice_value_is_unquoted_and_map_quotes_are_undoubled() {
    let p = parse_speech(r#"\Chr="Whisper"\hi"#);
    assert_eq!(p.speech[0], SpeechItem::Tag(Tag::Voice("Whisper".into())));
    let q = parse_speech(r#"\Map="say ""hi"""="x"\"#);
    assert_eq!(q.spoken_text(), "say \"hi\"");
    assert_eq!(q.display_words, ["x"]);
}
