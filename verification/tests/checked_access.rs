use indexable_str::IndexError;
use indexable_str::IndexableStr;

const SAMPLES: [&str; 7] = [
    "",
    "a",
    "hello world",
    "0😀2345678😀",
    "aé€😀z",
    "żółć",
    "😀😀😀",
];

#[test]
fn test_range_with_ending_index_too_large() {
    let s = IndexableStr::new("0😀2345678😀");

    let result = s.slice(0, 11);
    assert!(result.is_err());
    assert_eq!(result, Err(IndexError::RangeEndOutOfBounds { end: 11, len: 10 }));
}

#[test]
fn test_range_with_ending_index_is_less_than_the_starting_index() {
    let s = IndexableStr::new("0😀2345678😀");

    let result = s.slice(20, 10);
    assert!(result.is_err());
    assert_eq!(result, Err(IndexError::InvalidRangeOrder { start: 20, end: 10 }));
}

#[test]
fn emoji_text_scenario() {
    let s = IndexableStr::new("0😀2345678😀");

    assert_eq!(s.len(), 10);
    assert_eq!(s.as_str().len(), 16);
    assert_eq!(s.character_at(1), Ok('😀'));
    assert_eq!(s.character_at(1).map(u32::from), Ok(0x1F600));
    assert_eq!(s.slice(1, 9), Ok("😀2345678"));
    assert_eq!(s.slice_from(1), Ok("😀2345678😀"));
    assert_eq!(s.slice_to(9), Ok("0😀2345678"));
    assert_eq!(s.slice(0, 11), Err(IndexError::RangeEndOutOfBounds { end: 11, len: 10 }));
    assert_eq!(s.slice(20, 10), Err(IndexError::InvalidRangeOrder { start: 20, end: 10 }));
}

#[test]
fn empty_text_scenario() {
    let s = IndexableStr::new("");

    assert_eq!(s.len(), 0);
    assert_eq!(s.as_str(), "");
    assert_eq!(s.to_display_string(), "");
    assert_eq!(s.slice(0, 0), Ok(""));
    assert_eq!(s.slice_from(0), Ok(""));
    assert_eq!(s.slice_to(0), Ok(""));
    assert_eq!(s.character_at(0), Err(IndexError::OutOfRange { index: 0, len: 0 }));
    assert_eq!(s.slice(0, 1), Err(IndexError::RangeEndOutOfBounds { end: 1, len: 0 }));
    assert_eq!(s.slice(1, 0), Err(IndexError::InvalidRangeOrder { start: 1, end: 0 }));
}

#[test]
fn as_str_hands_the_source_back() {
    for source in SAMPLES {
        let s = IndexableStr::new(source);

        assert_eq!(s.as_str(), source);
        assert_eq!(s.as_str().len(), source.len());
        assert_eq!(s.to_display_string(), source.to_string());
    }
}

#[test]
fn len_counts_code_points_not_bytes() {
    for source in SAMPLES {
        let s = IndexableStr::new(source);

        assert_eq!(s.len(), source.chars().count());
    }
    assert_eq!(IndexableStr::new("😀123456789").len(), 10);
    assert_eq!("😀123456789".len(), 13);
}

#[test]
fn character_at_agrees_with_enumeration() {
    for source in SAMPLES {
        let s = IndexableStr::new(source);
        let expected: Vec<char> = source.chars().collect();

        for (index, chr) in expected.iter().enumerate() {
            assert_eq!(s.character_at(index), Ok(*chr));
        }
    }
}

#[test]
fn character_at_refuses_indices_from_len_on() {
    for source in SAMPLES {
        let s = IndexableStr::new(source);
        let len = s.len();

        for index in [len, len + 1, len + 100, usize::MAX] {
            assert_eq!(s.character_at(index), Err(IndexError::OutOfRange { index, len }));
        }
    }
}

#[test]
fn slice_holds_the_code_points_of_its_range() {
    for source in SAMPLES {
        let s = IndexableStr::new(source);
        let chars: Vec<char> = source.chars().collect();

        for start in 0..=chars.len() {
            for end in start..=chars.len() {
                let expected: String = chars[start..end].iter().collect();
                let slice = s.slice(start, end).unwrap();

                assert_eq!(slice, expected);
                assert_eq!(slice.chars().collect::<Vec<char>>(), chars[start..end].to_vec());
            }
        }
    }
}

#[test]
fn splitting_and_joining_gives_the_text_back() {
    for source in SAMPLES {
        let s = IndexableStr::new(source);

        for k in 0..=s.len() {
            let mut joined = String::new();
            joined.push_str(s.slice(0, k).unwrap());
            joined.push_str(s.slice(k, s.len()).unwrap());

            assert_eq!(joined, s.as_str());
        }
    }
}

#[test]
fn a_range_that_ends_where_it_starts_is_empty() {
    for source in SAMPLES {
        let s = IndexableStr::new(source);

        for k in 0..=s.len() {
            assert_eq!(s.slice(k, k), Ok(""));
        }
    }
}

#[test]
fn inverted_ranges_are_refused_for_their_order() {
    let s = IndexableStr::new("0😀2345678😀");

    for end in 0..=9 {
        assert_eq!(
            s.slice(end + 1, end),
            Err(IndexError::InvalidRangeOrder { start: end + 1, end })
        );
    }
    assert_eq!(s.slice(11, 10), Err(IndexError::InvalidRangeOrder { start: 11, end: 10 }));
    assert_eq!(
        s.slice(usize::MAX, 0),
        Err(IndexError::InvalidRangeOrder { start: usize::MAX, end: 0 })
    );
}

#[test]
fn an_end_past_the_text_is_refused_whatever_the_start() {
    let s = IndexableStr::new("0😀2345678😀");

    for start in [0, 3, 10, 11, 12, usize::MAX] {
        assert_eq!(
            s.slice(start, 11),
            Err(IndexError::RangeEndOutOfBounds { end: 11, len: 10 })
        );
    }
    assert_eq!(s.slice(12, 11), Err(IndexError::RangeEndOutOfBounds { end: 11, len: 10 }));
    assert_eq!(
        s.slice(0, usize::MAX),
        Err(IndexError::RangeEndOutOfBounds { end: usize::MAX, len: 10 })
    );
}

#[test]
fn open_ranges_over_everything_are_the_text() {
    for source in SAMPLES {
        let s = IndexableStr::new(source);

        assert_eq!(s.slice_from(0), Ok(s.as_str()));
        assert_eq!(s.slice_to(s.len()), Ok(s.as_str()));
    }
}

#[test]
fn open_ranges_agree_with_the_closed_range() {
    for source in SAMPLES {
        let s = IndexableStr::new(source);

        for k in 0..=s.len() + 2 {
            assert_eq!(s.slice_from(k), s.slice(k, s.len()));
            assert_eq!(s.slice_to(k), s.slice(0, k));
        }
    }
}

#[test]
fn slice_from_is_refused_only_for_its_order() {
    let s = IndexableStr::new("aé€😀z");

    assert_eq!(s.slice_from(5), Ok(""));
    assert_eq!(s.slice_from(4), Ok("z"));
    assert_eq!(s.slice_from(6), Err(IndexError::InvalidRangeOrder { start: 6, end: 5 }));
}

#[test]
fn slice_to_is_refused_only_for_its_end() {
    let s = IndexableStr::new("aé€😀z");

    assert_eq!(s.slice_to(0), Ok(""));
    assert_eq!(s.slice_to(2), Ok("aé"));
    assert_eq!(s.slice_to(5), Ok("aé€😀z"));
    assert_eq!(s.slice_to(6), Err(IndexError::RangeEndOutOfBounds { end: 6, len: 5 }));
}

#[test]
fn slices_lie_between_the_byte_offsets_of_their_ends() {
    let source = "aé€😀z";
    let s = IndexableStr::new(source);

    assert_eq!(s.slice(0, 1).unwrap().as_bytes(), &source.as_bytes()[0..1]);
    assert_eq!(s.slice(1, 2).unwrap().as_bytes(), &source.as_bytes()[1..3]);
    assert_eq!(s.slice(2, 3).unwrap().as_bytes(), &source.as_bytes()[3..6]);
    assert_eq!(s.slice(3, 4).unwrap().as_bytes(), &source.as_bytes()[6..10]);
    assert_eq!(s.slice(4, 5).unwrap().as_bytes(), &source.as_bytes()[10..11]);
    assert_eq!(s.slice(1, 4).unwrap().as_bytes(), &source.as_bytes()[1..10]);
}
