use remark::areas::{help_popup_rect, layout, prompt_popup_rect, screen_parts, viewport};
use remark::keys::Area;

fn area(x: u16, y: u16, width: u16, height: u16) -> Area {
    Area {
        x,
        y,
        width,
        height,
    }
}

#[test]
fn the_panes_share_every_width() {
    for width in 0..300u16 {
        let r = layout(area(3, 2, width, 10));
        let files = 40.min(width.saturating_sub(1));
        assert_eq!(r.files, area(3, 2, files, 10), "at {width}");
        assert_eq!(r.diff, area(3 + files, 2, width - files, 10), "at {width}");
    }
}

#[test]
fn the_footer_is_the_last_of_two_lines_and_more() {
    for height in 0..120u16 {
        let (main, footer) = screen_parts(area(0, 0, 80, height));
        let low = if height >= 2 { 1 } else { 0 };
        assert_eq!(main, area(0, 0, 80, height - low), "at {height}");
        assert_eq!(footer, area(0, height - low, 80, low), "at {height}");
    }
}

fn share(total: u16, percent: u16) -> u16 {
    ((u32::from(total) * u32::from(percent) + 50) / 100) as u16
}

#[test]
fn windows_stand_in_the_middle() {
    for n in 0..250u16 {
        let screen = area(1, 5, n, 250 - n);
        let p = prompt_popup_rect(screen);
        let (left, right) = (share(n, 9), share(n, 91));
        let (top, bottom) = (share(250 - n, 9), share(250 - n, 91));
        assert_eq!(p, area(1 + left, 5 + top, right - left, bottom - top), "at {n}");
        let h = help_popup_rect(screen);
        let (left, right) = (share(n, 11), share(n, 89));
        let (top, bottom) = (share(250 - n, 10), share(250 - n, 90));
        assert_eq!(h, area(1 + left, 5 + top, right - left, bottom - top), "at {n}");
    }
    assert_eq!(prompt_popup_rect(area(0, 0, 100, 50)), area(9, 5, 82, 41));
}

#[test]
fn a_pane_has_at_least_one_place() {
    assert_eq!(viewport(area(0, 0, 40, 20)), (38, 18));
    assert_eq!(viewport(area(0, 0, 1, 0)), (1, 1));
    assert_eq!(viewport(area(0, 0, 3, 3)), (1, 1));
}
