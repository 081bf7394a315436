use angelfish::text::{push_i32, split_string, str_to_i32};

#[test]
fn parse_i32_like_std() {
    for s in ["0", "-0", "+5", "-", "+", "", "12a", " 1", "2147483647", "2147483648",
              "-2147483648", "-2147483649", "007", "99999999999999999999", "+-1"] {
        assert_eq!(str_to_i32(s), s.parse::<i32>().ok(), "{}", s);
    }
}

#[test]
fn decimal_like_display() {
    for v in [0, 7, -7, 10, 354, i32::MIN, i32::MAX, -100] {
        let mut s = String::from("x");
        push_i32(&mut s, v);
        assert_eq!(s, format!("x{}", v));
        assert_eq!(str_to_i32(&s[1..]), Some(v));
    }
}

#[test]
fn split_like_std() {
    for s in ["", ";", "a;;b", "MCPE;m;1;v;2;3", "no separator", "é;ü;"] {
        let got = split_string(s, ';');
        let want: Vec<String> = s.split(';').map(String::from).collect();
        assert_eq!(got, want);
    }
}
