use selectors::config::Config;
use selectors::widgets::{Help, MerryXmas, Pairs, SnowField};

#[test]
fn text_area_is_centred_in_a_tall_area() {
    assert_eq!(Pairs::new().text_area(2, 5, 80, 40), (2, 5 + 11, 80, 17));
}

#[test]
fn text_area_is_cut_to_a_short_area() {
    assert_eq!(Pairs::new().text_area(0, 3, 30, 10), (0, 3, 30, 10));
}

#[test]
fn snow_is_scattered_inside_the_field() {
    let mut f = SnowField::new(50);
    f.set_size(10, 4);
    let cells = f.render(0, 0, 10, 4);
    assert_eq!(cells.len(), 50);
    assert!(cells.iter().all(|&(x, y)| x < 10 && y < 4));
}

#[test]
fn snow_stays_inside_the_field_as_it_falls() {
    let mut f = SnowField::new(30);
    f.set_size(7, 3);
    for _ in 0..20 {
        f.tick();
        let cells = f.render(0, 0, 7, 3);
        assert_eq!(cells.len(), 30);
        assert!(cells.iter().all(|&(x, y)| x < 7 && y < 3));
    }
}

#[test]
fn render_offsets_and_clips_to_the_area() {
    let mut f = SnowField::new(40);
    f.set_size(20, 20);
    let all = f.render(0, 0, 20, 20);
    let clipped = f.render(100, 200, 5, 5);
    let expected: Vec<(u16, u16)> = all
        .iter()
        .filter(|&&(x, y)| x < 5 && y < 5)
        .map(|&(x, y)| (100 + x, 200 + y))
        .collect();
    assert_eq!(clipped, expected);
}

#[test]
fn unsized_field_has_no_flakes_and_ticks() {
    let mut f = SnowField::new(10);
    f.tick();
    assert!(f.render(0, 0, 100, 100).is_empty());
}

#[test]
fn banner_has_eight_rows() {
    let b = MerryXmas::new().as_str();
    assert_eq!(b.lines().count(), 8);
    assert!(b.ends_with('\n'));
    assert!(b.starts_with("▄▄▄"));
}

#[test]
fn help_and_config_construct() {
    assert_eq!(Help::new(), Help);
    assert_eq!(Config::new("words.txt".to_string()).file(), "words.txt");
}
