use yaoaic::prompts::{contains_chars, find_selected, list_matching, valid_prompts, Error, Prompt, PromptLoader, Source};

#[test]
fn parse() {
    let example = r###"
"act","prompt"
"1","1"
"2","2"
"###;
    let result = PromptLoader::parse_bytes(example.as_bytes().to_vec());
    let expected = vec![
        Ok(Prompt {
            act: "1".into(),
            prompt: "1".into(),
        }),
        Ok(Prompt {
            act: "2".into(),
            prompt: "2".into(),
        }),
    ];
    assert_eq!(result, expected);
}

#[test]
fn parse_maps_columns_by_header_name() {
    let swapped = "prompt,act\nP,A\n";
    let result = PromptLoader::parse_bytes(swapped.as_bytes().to_vec());
    let expected = vec![Ok(Prompt {
        act: "A".to_string(),
        prompt: "P".to_string(),
    })];
    assert_eq!(result, expected);
}

#[test]
fn parse_of_no_records_is_empty() {
    assert_eq!(PromptLoader::parse_bytes(Vec::new()), vec![]);
}

#[test]
fn record_without_catalog_columns_is_a_format_error() {
    let other = "foo,bar\n1,2\n";
    let result = PromptLoader::parse_bytes(other.as_bytes().to_vec());
    assert_eq!(result.len(), 1);
    assert!(matches!(&result[0], Err(Error::FormatError(_))));
}

#[test]
fn malformed_record_is_a_format_error_not_fatal() {
    // The second record has three fields under a two-field header.
    let uneven = "act,prompt\na,p\nx,y,z\nb,q\n";
    let result = PromptLoader::parse_bytes(uneven.as_bytes().to_vec());
    assert_eq!(result.len(), 3);
    assert_eq!(
        result[0],
        Ok(Prompt {
            act: "a".to_string(),
            prompt: "p".to_string()
        })
    );
    assert!(matches!(&result[1], Err(Error::FormatError(_))));
    assert_eq!(
        result[2],
        Ok(Prompt {
            act: "b".to_string(),
            prompt: "q".to_string()
        })
    );
}

#[test]
fn valid_prompts_keeps_the_parsed_records_in_order() {
    let one = Prompt {
        act: "one".to_string(),
        prompt: "first".to_string(),
    };
    let two = Prompt {
        act: "two".to_string(),
        prompt: "second".to_string(),
    };
    let results = vec![
        Ok(one.clone()),
        Err(Error::FormatError("bad record".to_string())),
        Ok(two.clone()),
        Err(Error::LoadError("bad source".to_string())),
    ];
    assert_eq!(valid_prompts(results), vec![one, two]);
}

#[test]
fn valid_prompts_of_no_records_is_empty() {
    assert_eq!(valid_prompts(Vec::new()), vec![]);
}

#[test]
fn error_message_reports_either_variant() {
    let f = Error::FormatError("not csv".to_string());
    let l = Error::LoadError("no such file".to_string());
    assert_eq!(f.message(), "not csv");
    assert_eq!(l.message(), "no such file");
}

#[test]
fn sources_compare_by_their_location() {
    let raw: &[u8] = b"act,prompt\n";
    assert_eq!(Source::Raw(raw), Source::Raw(raw));
    assert_ne!(Source::Http("https://example.test/prompts.csv"), Source::File("prompts.csv"));
}

#[test]
fn find_selected_by_index_or_act_name() {
    let prompts = vec![
        Prompt {
            act: "translator".to_string(),
            prompt: "Translate.".to_string(),
        },
        Prompt {
            act: "poet".to_string(),
            prompt: "Rhyme.".to_string(),
        },
        Prompt {
            act: "poet".to_string(),
            prompt: "Rhyme again.".to_string(),
        },
    ];
    assert_eq!(find_selected(&prompts, Some(1), &"1".to_string()), Some(1));
    assert_eq!(find_selected(&prompts, None, &"poet".to_string()), Some(1));
    assert_eq!(find_selected(&prompts, None, &"translator".to_string()), Some(0));
    assert_eq!(find_selected(&prompts, None, &"juggler".to_string()), None);
    assert_eq!(find_selected(&prompts, Some(9), &"9".to_string()), None);
}

#[test]
fn list_matching_is_case_insensitive_over_both_fields() {
    let prompts = vec![
        Prompt {
            act: "Translator".to_string(),
            prompt: "Translate what I say.".to_string(),
        },
        Prompt {
            act: "Poet".to_string(),
            prompt: "Rhyme everything.".to_string(),
        },
        Prompt {
            act: "DJ".to_string(),
            prompt: "Play Funky Town.".to_string(),
        },
    ];
    assert_eq!(list_matching(&prompts, "TRANS"), vec![0]);
    assert_eq!(list_matching(&prompts, "funky"), vec![2]);
    assert_eq!(list_matching(&prompts, ""), vec![0, 1, 2]);
    assert_eq!(list_matching(&prompts, "zebra"), Vec::<usize>::new());
}

#[test]
fn contains_chars_finds_needles() {
    let hay: Vec<char> = "hello world".chars().collect();
    let needle: Vec<char> = "lo wo".chars().collect();
    let absent: Vec<char> = "worlds".chars().collect();
    let empty: Vec<char> = Vec::new();
    assert!(contains_chars(&hay, &needle));
    assert!(contains_chars(&hay, &empty));
    assert!(!contains_chars(&hay, &absent));
    assert!(!contains_chars(&empty, &needle));
}
