use shnek::score::{best_scores, decimal, lines, Score, BEST_COUNT, NEWLINE};

fn bytes(text: &str) -> Vec<u8> {
    text.as_bytes().to_vec()
}

#[test]
fn a_run_is_recorded_once() {
    let mut score = Score::new();
    assert_eq!(score.file().as_str(), "assets/scores.txt");
    assert_eq!(score.write(42), Some(bytes("\n42")));
    assert_eq!(score.write(42), None);
    assert_eq!(score.write(7), None);
    score.reset();
    assert_eq!(score.write(0), Some(bytes("\n0")));
    assert_eq!(score.write(1), None);
    score.reset();
    score.reset();
    assert_eq!(score.write(1_000_000), Some(bytes("\n1000000")));
}

#[test]
fn decimal_text_of_a_number() {
    assert_eq!(decimal(0), bytes("0"));
    assert_eq!(decimal(7), bytes("7"));
    assert_eq!(decimal(9), bytes("9"));
    assert_eq!(decimal(10), bytes("10"));
    assert_eq!(decimal(1_234_567_890), bytes("1234567890"));
    assert_eq!(decimal(usize::MAX), bytes(&format!("{}", usize::MAX)));
    for n in 0..2_000_usize {
        assert_eq!(decimal(n), bytes(&format!("{}", n)));
    }
}

#[test]
fn the_list_is_shown_newest_first() {
    let score = Score::new();
    assert_eq!(score.read(&bytes("1\n2\n3")), bytes("3\n2\n1"));
    assert_eq!(score.read(&bytes("")), bytes(""));
    assert_eq!(score.read(&bytes("12")), bytes("12"));
    assert_eq!(score.read(&bytes("\n5")), bytes("5\n"));
    assert_eq!(score.read(&bytes("\n5\n17\n3")), bytes("3\n17\n5\n"));
    assert_eq!(score.read(&bytes("a\n")), bytes("\na"));
    assert_eq!(score.read(&bytes("\n\n")), bytes("\n\n"));
    for text in ["", "x", "\n", "1\n22\n333\n", "\n\nab\n\ncd"] {
        let expected = {
            let mut parts = text.split('\n').collect::<Vec<&str>>();
            parts.reverse();
            parts.join("\n")
        };
        assert_eq!(score.read(&bytes(text)), bytes(&expected));
        // showing what is shown gives the file back
        assert_eq!(score.read(&score.read(&bytes(text))), bytes(text));
    }
}

#[test]
fn a_text_is_cut_at_every_line_break() {
    assert_eq!(lines(&bytes("a\n\nb")), vec![bytes("a"), bytes(""), bytes("b")]);
    assert_eq!(lines(&bytes("")), vec![bytes("")]);
    assert_eq!(lines(&bytes("\n")), vec![bytes(""), bytes("")]);
    assert_eq!(lines(&bytes("12\n7")), vec![bytes("12"), bytes("7")]);
    assert_eq!(NEWLINE, b'\n');
}

#[test]
fn the_best_scores_come_largest_first() {
    assert_eq!(best_scores(&vec![5, 1, 9, 3, 9], BEST_COUNT), vec![9, 9, 5]);
    assert_eq!(best_scores(&vec![5, 1, 9, 3, 9], 10), vec![9, 9, 5, 3, 1]);
    assert_eq!(best_scores(&vec![2, 8], BEST_COUNT), vec![8, 2]);
    assert_eq!(best_scores(&vec![], BEST_COUNT), Vec::<i32>::new());
    assert_eq!(best_scores(&vec![4, 4, 4, 4], 0), Vec::<i32>::new());
    assert_eq!(best_scores(&vec![-3, i32::MIN, i32::MAX, 0], BEST_COUNT), vec![i32::MAX, 0, -3]);
    let scores: Vec<i32> = (0..50).map(|n| (n * 37) % 23 - 5).collect();
    let mut sorted = scores.clone();
    sorted.sort_by(|a, b| b.cmp(a));
    sorted.truncate(3);
    assert_eq!(best_scores(&scores, BEST_COUNT), sorted);
}
