use phantasm::sprite::{generate_goodbye_texture, goodbye_texture_checked, render_goodbye, GOODBYE_H, GOODBYE_W};

#[test]
fn goodbye_texture_has_fixed_size() {
    let t = generate_goodbye_texture("bob");
    assert_eq!(t.len(), GOODBYE_W * GOODBYE_H * 4);
    assert!(t.iter().any(|&b| b == 255));
}

#[test]
fn goodbye_texture_uses_the_upper_case_name() {
    // "ß" upper-cases to "SS": the rendering must change width
    let t = generate_goodbye_texture("stra\u{df}e");
    assert_eq!(t, render_goodbye("STRASSE"));
    assert_ne!(t, render_goodbye("stra\u{df}e"));
}

#[test]
fn goodbye_checked_matches_unchecked() {
    assert_eq!(goodbye_texture_checked("amy"), Some(generate_goodbye_texture("amy")));
}

#[test]
fn goodbye_lines_are_red_with_a_visible_shadow() {
    let t = render_goodbye("X");
    let px = |x: usize, y: usize| {
        let i = (y * GOODBYE_W + x) * 4;
        [t[i], t[i + 1], t[i + 2], t[i + 3]]
    };
    let red = [255, 24, 36, 255];
    let shadow = [0, 0, 0, 220];
    let mut reds = 0;
    let mut shadows = 0;
    for y in 0..GOODBYE_H {
        for x in 0..GOODBYE_W {
            let p = px(x, y);
            if p == red {
                reds += 1;
                // behind every red pixel: more red, or the shadow
                if x + 2 < GOODBYE_W && y + 2 < GOODBYE_H {
                    let q = px(x + 2, y + 2);
                    assert!(q == red || q == shadow);
                }
            } else if p == shadow {
                shadows += 1;
            } else {
                assert_eq!(p, [0, 0, 0, 0]);
            }
        }
    }
    assert!(reds > 0);
    assert!(shadows > 0);
    // nothing above the first line
    for y in 0..38 {
        for x in 0..GOODBYE_W {
            assert_eq!(px(x, y), [0, 0, 0, 0]);
        }
    }
    // the first line's shadow starts two rows below its text
    assert!((0..GOODBYE_W).any(|x| px(x, 38) == red));
    assert!((0..GOODBYE_W).any(|x| px(x, 40) == shadow));
}

#[test]
fn goodbye_texture_depends_only_on_the_upper_case_name() {
    let a = generate_goodbye_texture("Ada");
    let b = generate_goodbye_texture("ADA");
    assert_eq!(a, b);
    assert_eq!(a.len(), 307_200);
    assert_ne!(a, generate_goodbye_texture("Bea"));
}
