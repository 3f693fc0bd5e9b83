use psa_ret::layout::{centered_rect, Rect};

#[test]
fn edit_window_is_centred() {
    let screen = Rect { x: 0, y: 0, width: 100, height: 50 };
    assert_eq!(centered_rect(80, 60, screen), Rect { x: 10, y: 10, width: 80, height: 30 });
    let shifted = Rect { x: 5, y: 2, width: 40, height: 20 };
    assert_eq!(centered_rect(50, 50, shifted), Rect { x: 15, y: 7, width: 20, height: 10 });
    assert_eq!(centered_rect(100, 100, shifted), shifted);
}

#[test]
fn edit_window_lies_within_its_area() {
    for (w, h) in [(0u16, 0u16), (1, 1), (7, 3), (101, 37), (u16::MAX, 9)] {
        for (px, py) in [(0u16, 0u16), (80, 60), (100, 100), (33, 99)] {
            let r = Rect { x: 3, y: 4, width: w, height: h };
            let c = centered_rect(px, py, r);
            assert!(r.x <= c.x && c.x as u32 + c.width as u32 <= r.x as u32 + r.width as u32);
            assert!(r.y <= c.y && c.y as u32 + c.height as u32 <= r.y as u32 + r.height as u32);
        }
    }
}

#[test]
fn edit_window_of_a_square_screen() {
    let screen = Rect { x: 0, y: 0, width: 100, height: 100 };
    assert_eq!(centered_rect(80, 60, screen), Rect { x: 10, y: 20, width: 80, height: 60 });
    let odd = Rect { x: 1, y: 2, width: 7, height: 5 };
    assert_eq!(centered_rect(80, 60, odd), Rect { x: 2, y: 3, width: 5, height: 3 });
    // boundaries at 0.5 and 4.5 cells are rounded up
    let halves = Rect { x: 0, y: 0, width: 5, height: 10 };
    assert_eq!(centered_rect(80, 100, halves), Rect { x: 1, y: 0, width: 4, height: 10 });
    // an area reaching past the last cell is first cut there
    let edge = Rect { x: 65530, y: 0, width: 100, height: 10 };
    assert_eq!(centered_rect(100, 100, edge), Rect { x: 65530, y: 0, width: 5, height: 10 });
}

fn expected_middle(start: u16, extent: u16, percent: u16) -> (u16, u16) {
    let extent = extent.min(u16::MAX - start) as u32;
    let side = ((100 - percent) / 2) as u32;
    let round = |n: u32| (n + 50) / 100;
    let s = round(extent * side);
    let e = round(extent * (side + percent as u32));
    (start + s as u16, (e - s) as u16)
}

#[test]
fn edit_window_follows_the_percentage_rule() {
    for w in 0..70u16 {
        for h in [0u16, 1, 3, 9, 17, 40] {
            for (px, py) in [(80u16, 60u16), (33, 77), (1, 99), (100, 0), (50, 50)] {
                let r = Rect { x: 2, y: 1, width: w, height: h };
                let (y, height) = expected_middle(r.y, r.height, py);
                let (x, width) = expected_middle(r.x, r.width, px);
                assert_eq!(centered_rect(px, py, r), Rect { x, y, width, height }, "{w} {h} {px} {py}");
            }
        }
    }
}
