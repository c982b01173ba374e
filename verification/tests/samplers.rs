use rand::rngs::SmallRng;
use rand::Rng;
use rand::SeedableRng;
use rand_utf8::full::{scalar_from_draw, CharU32Kind};
use rand_utf8::small::{is_usable, CharUtf8Kind};

#[test]
fn usable_excludes_nul_and_replacement() {
    assert!(!is_usable('\0'));
    assert!(!is_usable('\u{FFFD}'));
    assert!(is_usable('\u{1}'));
    assert!(is_usable('a'));
    assert!(is_usable('\u{FFFC}'));
    assert!(is_usable('\u{FFFE}'));
    assert!(is_usable('\u{10FFFF}'));
}

#[test]
fn new_sampler_has_nothing_pending() {
    let s = CharUtf8Kind::new();
    assert_eq!(0, s.pending_len());
}

#[test]
fn enqueue_keeps_usable_in_order() {
    let mut s = CharUtf8Kind::new();
    s.enqueue_usable(&vec!['x', '\0', '\u{FFFD}', 'y', '\u{E9}']);
    assert_eq!(3, s.pending_len());
    s.enqueue_usable(&vec!['\u{FFFD}', 'z']);
    assert_eq!(4, s.pending_len());
    let mut rng = SmallRng::seed_from_u64(0);
    assert_eq!('x', s.next(&mut rng));
    assert_eq!('y', s.next(&mut rng));
    assert_eq!('\u{E9}', s.next(&mut rng));
    assert_eq!('z', s.next(&mut rng));
    assert_eq!(0, s.pending_len());
}

#[test]
fn load_decodes_lossily_and_filters() {
    let mut bytes = [0u8; 32];
    // 'a', NUL, U+00E9, a stray byte, 'b', a cut-off sequence, U+20AC, 'c'
    let head = [0x61, 0x00, 0xC3, 0xA9, 0xFF, 0x62, 0xE2, 0x82, 0xE2, 0x82, 0xAC, 0x63];
    bytes[..head.len()].copy_from_slice(&head);
    let mut s = CharUtf8Kind::new();
    s.load(&bytes);
    assert_eq!(5, s.pending_len());
    let mut rng = SmallRng::seed_from_u64(0);
    assert_eq!('a', s.next(&mut rng));
    assert_eq!('\u{E9}', s.next(&mut rng));
    assert_eq!('b', s.next(&mut rng));
    assert_eq!('\u{20AC}', s.next(&mut rng));
    assert_eq!('c', s.next(&mut rng));
    assert_eq!(0, s.pending_len());
}

#[test]
fn load_of_unusable_bytes_queues_nothing() {
    let mut s = CharUtf8Kind::new();
    s.load(&[0u8; 32]);
    assert_eq!(0, s.pending_len());
    s.load(&[0xFFu8; 32]);
    assert_eq!(0, s.pending_len());
    s.load(&[0x80u8; 32]);
    assert_eq!(0, s.pending_len());
}

#[test]
fn load_of_ascii_queues_every_byte() {
    let mut s = CharUtf8Kind::new();
    s.load(&[b'q'; 32]);
    assert_eq!(32, s.pending_len());
    let mut rng = SmallRng::seed_from_u64(5);
    for _ in 0..32 {
        assert_eq!('q', s.next(&mut rng));
    }
}

#[test]
fn pending_characters_leave_before_any_refill() {
    let mut s = CharUtf8Kind::new();
    s.enqueue_usable(&vec!['k']);
    let mut rng = SmallRng::seed_from_u64(9);
    let mut untouched = SmallRng::seed_from_u64(9);
    assert_eq!('k', s.next(&mut rng));
    assert_eq!(untouched.random_range(0..=u32::MAX), rng.random_range(0..=u32::MAX));
}

#[test]
fn small_sampler_follows_the_random_bytes() {
    let mut rng = SmallRng::seed_from_u64(0);
    let mut twin = SmallRng::seed_from_u64(0);
    let mut s = CharUtf8Kind::new();
    let mut expected: Vec<char> = Vec::new();
    while expected.is_empty() {
        let mut buf = [0u8; 32];
        twin.fill(&mut buf);
        expected.extend(
            String::from_utf8_lossy(&buf).chars().filter(|c| *c != '\0' && *c != '\u{FFFD}'),
        );
    }
    for c in expected {
        assert_eq!(c, s.next(&mut rng));
    }
}

#[test]
fn small_sampler_never_yields_nul_or_replacement() {
    let mut rng = SmallRng::seed_from_u64(42);
    let mut s = CharUtf8Kind::new();
    let mut ascii = 0;
    for _ in 0..20_000 {
        let c = s.next(&mut rng);
        assert_ne!('\0', c);
        assert_ne!('\u{FFFD}', c);
        if c.len_utf8() == 1 {
            ascii += 1;
        }
    }
    assert!(ascii > 10_000);
}

#[test]
fn drawn_numbers_map_to_scalars() {
    assert_eq!(Some('A'), scalar_from_draw(0x41));
    assert_eq!(Some('\u{1}'), scalar_from_draw(1));
    assert_eq!(Some('\u{D7FF}'), scalar_from_draw(0xD7FF));
    assert_eq!(None, scalar_from_draw(0xD800));
    assert_eq!(None, scalar_from_draw(0xDFFF));
    assert_eq!(Some('\u{E000}'), scalar_from_draw(0xE000));
    assert_eq!(Some('\u{FFFD}'), scalar_from_draw(0xFFFD));
    assert_eq!(Some('\u{10FFFF}'), scalar_from_draw(0x10FFFF));
    assert_eq!(None, scalar_from_draw(0x110000));
    assert_eq!(None, scalar_from_draw(u32::MAX));
}

#[test]
fn full_sampler_follows_the_draws() {
    let mut rng = SmallRng::seed_from_u64(0);
    let mut twin = SmallRng::seed_from_u64(0);
    let mut s = CharU32Kind::new();
    for _ in 0..5_000 {
        let expected = loop {
            let v: u32 = twin.random_range(1..=0x110000);
            if let Some(c) = char::from_u32(v) {
                break c;
            }
        };
        assert_eq!(expected, s.next(&mut rng));
    }
}

#[test]
fn full_sampler_never_yields_nul() {
    let mut rng = SmallRng::seed_from_u64(13);
    let mut s = CharU32Kind::new();
    let mut wide = 0;
    for _ in 0..20_000 {
        let c = s.next(&mut rng);
        assert_ne!('\0', c);
        if c.len_utf8() == 4 {
            wide += 1;
        }
    }
    assert!(wide > 15_000);
}

#[test]
fn stand_in_characters_are_what_they_are_named() {
    assert!(is_usable(rand_utf8::small::LOWEST_USABLE));
    assert_eq!(1, rand_utf8::small::LOWEST_USABLE.len_utf8());
    assert_eq!(1, rand_utf8::small::LOWEST_USABLE as u32);
    assert_eq!(char::MAX, rand_utf8::full::HIGHEST);
    assert_eq!(None, scalar_from_draw(rand_utf8::full::DRAW_MAX));
}
