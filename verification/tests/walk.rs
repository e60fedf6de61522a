use ar_flac::util::{Lookahead, LookaheadPos};

#[test]
fn test_lookahead() {
    let inputs_and_expected = vec![
        (
            vec![0, 1, 2],
            vec![
                (LookaheadPos::First, 0),
                (LookaheadPos::Middle, 1),
                (LookaheadPos::Last, 2),
            ],
        ),
        (
            vec![0],
            vec![
                (LookaheadPos::Only, 0),
            ],
        ),
        (
            vec![0, 1],
            vec![
                (LookaheadPos::First, 0),
                (LookaheadPos::Last, 1),
            ],
        ),
        (
            vec![0, 1, 2, 3, 4, 5, 6, 7, 8, 9],
            vec![
                (LookaheadPos::First, 0),
                (LookaheadPos::Middle, 1),
                (LookaheadPos::Middle, 2),
                (LookaheadPos::Middle, 3),
                (LookaheadPos::Middle, 4),
                (LookaheadPos::Middle, 5),
                (LookaheadPos::Middle, 6),
                (LookaheadPos::Middle, 7),
                (LookaheadPos::Middle, 8),
                (LookaheadPos::Last, 9),
            ],
        ),
        (
            vec![],
            vec![],
        ),
    ];

    for (input, expected) in inputs_and_expected {
        let mut walk = Lookahead::new(input);
        let mut produced: Vec<(LookaheadPos, i32)> = Vec::new();
        while let Some(item) = walk.next() {
            produced.push(item);
        }
        assert_eq!(expected, produced);
    }
}

#[test]
fn lookahead_pos_start_and_end() {
    assert!(LookaheadPos::First.is_start());
    assert!(!LookaheadPos::First.is_end());
    assert!(!LookaheadPos::Middle.is_start());
    assert!(!LookaheadPos::Middle.is_end());
    assert!(!LookaheadPos::Last.is_start());
    assert!(LookaheadPos::Last.is_end());
    assert!(LookaheadPos::Only.is_start());
    assert!(LookaheadPos::Only.is_end());
}
