use ray_tracer::canvas::{clamp_value, decimal_bytes, Canvas, PPM};
use ray_tracer::scalar::Scalar;
use ray_tracer::tuples::{color, Tuple};

fn s(x: f64) -> Scalar {
    Scalar::from_raw((x * 1e9) as i64)
}

fn col(r: f64, g: f64, b: f64) -> Tuple {
    color(s(r), s(g), s(b))
}

#[test]
fn test_ppm_header() {
    let canvas = Canvas::new(5, 3);
    let string = canvas.to_string();
    let mut lines = string.lines();

    assert_eq!("P3", lines.next().unwrap());
    assert_eq!("5 3", lines.next().unwrap());
    assert_eq!("255", lines.next().unwrap());
}

#[test]
fn test_ppm_pixel_data() {
    let mut canvas = Canvas::new(5, 3);
    let c1 = col(1.5, 0.0, 0.0);
    let c2 = col(0.0, 0.5, 0.0);
    let c3 = col(-0.5, 0.0, 1.0);

    canvas.write_pixel(0, 0, &c1);
    canvas.write_pixel(2, 1, &c2);
    canvas.write_pixel(4, 2, &c3);

    let string = canvas.to_string();
    let mut lines = string.lines().skip(3);

    assert_eq!("255 0 0 0 0 0 0 0 0 0 0 0 0 0 0", lines.next().unwrap());
    assert_eq!("0 0 0 0 0 0 0 128 0 0 0 0 0 0 0", lines.next().unwrap());
    assert_eq!("0 0 0 0 0 0 0 0 0 0 0 0 0 0 255", lines.next().unwrap());
}

#[test]
fn test_ppm_line_length() {
    let mut canvas = Canvas::new(10, 2);

    let color = col(1.0, 0.8, 0.6);
    for y in 0..2 {
        for x in 0..10 {
            canvas.write_pixel(x, y, &color);
        }
    }

    let string = canvas.to_string();
    let mut lines = string.lines().skip(3);

    assert_eq!(
        "255 204 153 255 204 153 255 204 153 255 204 153 255 204 153 255 204",
        lines.next().unwrap()
    );
    assert_eq!(
        "153 255 204 153 255 204 153 255 204 153 255 204 153",
        lines.next().unwrap()
    );
    assert_eq!(
        "255 204 153 255 204 153 255 204 153 255 204 153 255 204 153 255 204",
        lines.next().unwrap()
    );
    assert_eq!(
        "153 255 204 153 255 204 153 255 204 153 255 204 153",
        lines.next().unwrap()
    );
}

#[test]
fn test_ppm_ends_with_newline() {
    let canvas = Canvas::new(5, 3);
    let string = canvas.to_string();

    assert!(string.ends_with('\n'));
}

#[test]
fn the_whole_text_of_a_small_canvas() {
    let mut canvas = Canvas::new(2, 2);
    canvas.write_pixel(1, 0, &col(1.0, 0.5, 0.0));
    canvas.write_pixel(0, 1, &col(0.2, 2.0, -1.0));
    assert_eq!("P3\n2 2\n255\n0 0 0 255 128 0\n51 255 0 0 0 0\n", canvas.to_string());
    assert_eq!(canvas.to_string().into_bytes(), canvas.to_bytes());
}

#[test]
fn an_empty_canvas_is_a_header() {
    assert_eq!("P3\n0 0\n255\n", Canvas::new(0, 0).to_string());
    assert_eq!("P3\n3 0\n255\n", Canvas::new(3, 0).to_string());
    assert_eq!("P3\n0 2\n255\n\n\n", Canvas::new(0, 2).to_string());
}

#[test]
fn a_write_outside_the_canvas_changes_nothing() {
    let mut canvas = Canvas::new(2, 1);
    let before = canvas.to_string();
    canvas.write_pixel(2, 0, &col(1.0, 1.0, 1.0));
    canvas.write_pixel(0, 1, &col(1.0, 1.0, 1.0));
    assert_eq!(before, canvas.to_string());
    assert_eq!(2, canvas.width);
    assert_eq!(1, canvas.height);
}

#[test]
fn no_line_of_pixel_data_is_longer_than_seventy() {
    let mut canvas = Canvas::new(40, 3);
    for y in 0..3 {
        for x in 0..40 {
            canvas.write_pixel(x, y, &col(1.0, 0.04 * (x as f64), 0.0));
        }
    }
    let text = canvas.to_string();
    for line in text.lines() {
        assert!(line.len() <= 70);
        assert!(!line.starts_with(' '));
        assert!(!line.ends_with(' '));
    }
}

#[test]
fn the_writer_starts_with_the_header() {
    let ppm = PPM::new(640, 480);
    assert_eq!(b"P3\n640 480\n255\n".to_vec(), ppm.into_bytes());
}

#[test]
fn the_writer_separates_values_by_spaces() {
    let mut ppm = PPM::new(1, 1);
    assert_eq!(3, ppm.write(b"255"));
    assert_eq!(1, ppm.write(b"0"));
    ppm.new_line();
    assert_eq!(2, ppm.write(b"17"));
    assert_eq!(b"P3\n1 1\n255\n255 0\n17".to_vec(), ppm.into_bytes());
}

#[test]
fn the_writer_breaks_a_line_that_would_pass_the_limit() {
    let mut ppm = PPM::new(1, 1);
    ppm.write(&[b'7'; 60]);
    ppm.write(b"12345");
    ppm.write(b"89");
    ppm.write(b"1");
    let text = String::from_utf8(ppm.into_bytes()).unwrap();
    let lines: Vec<&str> = text.lines().skip(3).collect();
    assert_eq!(2, lines.len());
    assert_eq!(69, lines[0].len());
    assert!(lines[0].ends_with("7 12345 89"));
    assert_eq!("1", lines[1]);
}

#[test]
fn a_value_too_long_for_any_line_stands_alone() {
    let mut ppm = PPM::new(1, 1);
    ppm.write(b"1");
    ppm.write(&[b'9'; 80]);
    ppm.write(b"2");
    let text = String::from_utf8(ppm.into_bytes()).unwrap();
    let lines: Vec<&str> = text.lines().skip(3).collect();
    assert_eq!(vec!["1", "9".repeat(80).as_str(), "2"], lines);
}

#[test]
fn decimal_digits() {
    assert_eq!(b"0".to_vec(), decimal_bytes(0));
    assert_eq!(b"9".to_vec(), decimal_bytes(9));
    assert_eq!(b"10".to_vec(), decimal_bytes(10));
    assert_eq!(b"255".to_vec(), decimal_bytes(255));
    assert_eq!(b"1234567890".to_vec(), decimal_bytes(1234567890));
    assert_eq!(usize::MAX.to_string().into_bytes(), decimal_bytes(usize::MAX));
}

#[test]
fn channel_text() {
    assert_eq!(b"0".to_vec(), clamp_value(&s(-0.5)));
    assert_eq!(b"255".to_vec(), clamp_value(&s(1.5)));
    assert_eq!(b"255".to_vec(), clamp_value(&s(1.0)));
    assert_eq!(b"128".to_vec(), clamp_value(&s(0.5)));
    assert_eq!(b"204".to_vec(), clamp_value(&s(0.8)));
    assert_eq!(b"0".to_vec(), clamp_value(&s(0.0)));
}
