use same_content::{Comparison, Step};

/// Runs a comparison to its end, handing out the first source's bytes in
/// pieces of `piece_a` and the second's in pieces of `piece_b`.
fn run(a: &[u8], b: &[u8], size: usize, piece_a: usize, piece_b: usize) -> (bool, usize, usize) {
    let mut c = Comparison::new(size);
    let (mut pa, mut pb) = (0usize, 0usize);
    loop {
        match c.step() {
            Step::ReadFirst(max) => {
                let n = max.min(piece_a).min(a.len() - pa);
                c.first_read(&a[pa..pa + n]);
                pa += n;
            }
            Step::ReadSecond(max) => {
                let n = max.min(piece_b).min(b.len() - pb);
                c.second_read(&b[pb..pb + n]);
                pb += n;
            }
            Step::Done(same) => return (same, pa, pb),
        }
    }
}

#[test]
fn session_steps_through_a_round() {
    let mut c = Comparison::new(4);
    assert_eq!(c.step(), Step::ReadFirst(4));
    assert!(c.retries_interrupted());
    c.first_read(b"abcd");
    assert_eq!(c.step(), Step::ReadSecond(4));
    assert!(c.retries_interrupted());
    c.second_read(b"ab");
    assert_eq!(c.step(), Step::ReadSecond(2));
    c.second_read(b"cd");
    assert_eq!(c.step(), Step::ReadFirst(4));
    c.first_read(b"");
    assert_eq!(c.step(), Step::ReadSecond(1));
    c.second_read(b"");
    assert_eq!(c.step(), Step::Done(true));
    assert!(!c.retries_interrupted());
}

#[test]
fn session_first_source_ends_before_the_second() {
    let mut c = Comparison::new(8);
    c.first_read(b"xy");
    c.second_read(b"xy");
    c.first_read(b"");
    assert_eq!(c.step(), Step::ReadSecond(1));
    c.second_read(b"z");
    assert_eq!(c.step(), Step::Done(false));
}

#[test]
fn session_second_source_ends_early() {
    let mut c = Comparison::new(8);
    c.first_read(b"hello");
    c.second_read(b"hel");
    assert_eq!(c.step(), Step::ReadSecond(2));
    c.second_read(b"");
    assert_eq!(c.step(), Step::Done(false));
}

#[test]
fn session_difference_decides_at_the_end_of_the_round() {
    let mut c = Comparison::new(8);
    c.first_read(b"abc");
    c.second_read(b"ax");
    assert_eq!(c.step(), Step::ReadSecond(1));
    c.second_read(b"c");
    assert_eq!(c.step(), Step::Done(false));
}

#[test]
fn session_verdicts_do_not_depend_on_pieces() {
    let base: Vec<u8> = (0..500u32).map(|i| (i % 251) as u8).collect();
    let mut changed = base.clone();
    changed[321] ^= 4;
    for (other, expected) in [(base.clone(), true), (changed, false), (base[..499].to_vec(), false)] {
        for size in [1, 7, 256, 1000] {
            for (pa, pb) in [(1, 1), (3, 1000), (1000, 2), (1000, 1000)] {
                assert_eq!(run(&base, &other, size, pa, pb).0, expected);
                assert_eq!(run(&other, &base, size, pb, pa).0, expected);
            }
        }
    }
}

#[test]
fn session_stops_within_one_buffer_of_the_difference() {
    let base = vec![7u8; 4000];
    let mut changed = base.clone();
    changed[2500] = 8;
    for size in [1, 64, 256] {
        let (same, pa, pb) = run(&base, &changed, size, 1000, 3);
        assert!(!same);
        assert!(pa <= 2500 + size);
        assert!(pb <= 2500 + size);
    }
}
