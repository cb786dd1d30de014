use quetta::Text;

#[test]
pub fn test_slice1() {
    let t = Text::new("a.b.c");
    let s1 = t.slice(0, 2);
    assert_eq!("a.", s1.as_str());
    assert_eq!(&t.as_str()[..2], s1.as_str());
    assert_eq!(&s1, &t.substring(0, 2));
    assert_eq!(&s1, &Text::new("a."));
    assert_eq!(2, s1.len());
    let s2 = t.slice(4, 4);
    assert_eq!(&t.as_str()[4..4], s2.as_str());
    assert_eq!(0, s2.len())
}

#[test]
#[should_panic]
pub fn test_invalid_slices1() {
    let t = Text::new("ASDFG");
    t.substring(4, 5);
}

#[test]
#[should_panic]
pub fn test_invalid_slices2() {
    let t = Text::new("ASDFG");
    t.slice(6, 8);
}

#[test]
pub fn test_lift() {
    let t = Text::new(" TEST  ");
    let trimmed = t.try_lift(|t| t.trim()).expect("Lifting failed");
    assert_eq!("TEST", trimmed.as_str());
}

#[test]
pub fn test_lift_many() {
    let t = Text::new("A:B:C:D");
    let lifted: Vec<Text> = t.lift_many(|s| s.split(":").collect());
    assert_eq!(4, lifted.len());
    assert_eq!("A", lifted[0].as_str());
    assert_eq!("B", lifted[1].as_str());
    assert_eq!("C", lifted[2].as_str());
    assert_eq!("D", lifted[3].as_str());
}

#[test]
fn test_new_and_len() {
    let t = Text::new("I was born in a water moon");
    assert_eq!(26, t.len());
    assert!(!t.is_empty());
    assert_eq!("I was born in a water moon", t.as_str());
}

#[test]
fn test_default_is_empty() {
    let t = Text::default();
    assert!(t.is_empty());
    assert_eq!(0, t.len());
    assert_eq!("", t.as_str());
    assert_eq!(t, Text::new(""));
}

#[test]
fn test_equality_is_content_based() {
    assert_eq!(Text::new("a."), Text::new("a.b.c").slice(0, 2));
    assert_ne!(Text::new("a."), Text::new("a.b.c").slice(0, 3));
    let t = Text::new("xyxy");
    assert_eq!(t.substring(0, 2), t.substring(2, 2));
}

#[test]
fn test_clone_keeps_content() {
    let t = Text::new("shared");
    let c = t.clone();
    assert_eq!(t, c);
    assert_eq!("shared", c.as_str());
}

#[test]
fn test_substring_of_substring_flattens() {
    let t = Text::new("a.b.c");
    let s1 = t.substring(2, 3);
    assert_eq!("b.c", s1.as_str());
    let s2 = s1.substring(2, 1);
    assert_eq!("c", s2.as_str());
    assert_eq!(s2, t.substring(4, 1));
}

#[test]
fn test_substring_multibyte_offsets() {
    let t = Text::new("h\u{e9}llo");
    assert_eq!(6, t.len());
    let s = t.substring(0, 3);
    assert_eq!("h\u{e9}", s.as_str());
    assert_eq!(3, s.len());
    let rest = t.substring(3, 3);
    assert_eq!("llo", rest.as_str());
}

#[test]
fn test_lift_slice_contained() {
    let t = Text::new("Test");
    let s = &t.as_str()[0..2];
    let st = t.lift_slice(s);
    assert!(st.is_some());
    assert_eq!("Te", st.unwrap().as_str());
}

#[test]
fn test_lift_slice_unrelated_memory() {
    let t = Text::new("Test");
    let fresh = String::from("Te");
    assert!(t.lift_slice(fresh.as_str()).is_none());
    let unrelated = String::from("zz");
    assert!(t.lift_slice(unrelated.as_str()).is_none());
}

#[test]
fn test_lift_identity() {
    let t = Text::new("a.b.c");
    let same = t.lift(|s| s);
    assert_eq!(t, same);
    assert_eq!("a.b.c", same.as_str());
}

#[test]
fn test_lift_trim_is_zero_copy() {
    let t = Text::new("  a  ");
    let trimmed = t.lift(|s| s.trim());
    assert_eq!("a", trimmed.as_str());
    assert_eq!(1, trimmed.len());
    // try_lift succeeds on the same function, so the trimmed view is
    // contained in the original buffer: no copy was needed.
    assert!(t.try_lift(|s| s.trim()).is_some());
}

#[test]
fn test_lift_multibyte_contents() {
    let t = Text::new("  h\u{e9}llo  ");
    let trimmed = t.lift(|s| s.trim());
    assert_eq!("h\u{e9}llo", trimmed.as_str());
    assert!(t.try_lift(|s| s.trim()).is_some());
    let u = Text::new("a\u{e9}bc");
    let inner = &u.as_str()[1..3];
    let lifted = u.lift_slice(inner).unwrap();
    assert_eq!("\u{e9}", lifted.as_str());
    assert_eq!(2, lifted.len());
}

#[test]
fn test_lift_falls_back_to_copy() {
    let t = Text::new("abc");
    let r = t.lift(|_s| "XY");
    assert_eq!("XY", r.as_str());
    assert!(t.try_lift(|_s| "XY").is_none());
}

#[test]
fn test_try_lift_many_all_contained() {
    let t = Text::new("A:B:C:D");
    let lifted: Vec<Text> = t.try_lift_many(|s| s.split(":").collect());
    assert_eq!(4, lifted.len());
    assert_eq!("A", lifted[0].as_str());
    assert_eq!("B", lifted[1].as_str());
    assert_eq!("C", lifted[2].as_str());
    assert_eq!("D", lifted[3].as_str());
}

#[test]
fn test_try_lift_many_stops_at_foreign_slice() {
    let t = Text::new("A:B");
    let lifted: Vec<Text> = t.try_lift_many(|s| vec![&s[0..1], "zz", &s[2..3]]);
    assert_eq!(1, lifted.len());
    assert_eq!("A", lifted[0].as_str());
}

#[test]
fn test_lift_many_copies_foreign_slice() {
    let t = Text::new("A:B");
    let lifted: Vec<Text> = t.lift_many(|s| vec![&s[0..1], "zz", &s[2..3]]);
    assert_eq!(3, lifted.len());
    assert_eq!("A", lifted[0].as_str());
    assert_eq!("zz", lifted[1].as_str());
    assert_eq!("B", lifted[2].as_str());
}

#[test]
fn test_ordering_is_content_based() {
    let t = Text::new("a.b.c");
    assert!(Text::new("a") < Text::new("b"));
    assert!(Text::new("ab") < Text::new("b"));
    assert!(Text::new("a") < Text::new("ab"));
    assert_eq!(
        Some(std::cmp::Ordering::Equal),
        t.slice(2, 3).partial_cmp(&Text::new("b"))
    );
    assert!(t.slice(0, 1) < t.slice(2, 3));
    assert!(t.slice(2, 3) > Text::new("a"));
}

#[test]
fn test_parse_from_str() {
    let t: Text = "a.b.c".parse().unwrap();
    assert_eq!("a.b.c", t.as_str());
}

#[test]
fn test_empty_slice_of_text() {
    let t = Text::new("abc");
    let s = t.substring(1, 0);
    assert!(s.is_empty());
    assert_eq!("", s.as_str());
    assert_eq!(s, Text::default());
}
