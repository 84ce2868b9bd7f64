//! The solved exercises that ship with the runner, as verified functions.
//!
//! Each exercise's task is a small computation; the printing that the
//! teaching texts wrap around them stays outside the library. The
//! assertions the exercises ask for are discharged statically here.

use vstd::prelude::*;
use vstd::string::StringSliceAdditionalSpecFns;

use crate::text;

verus! {

/// The larger of two numbers; either one when they are equal.
pub fn bigger(a: i32, b: i32) -> (r: i32)
    ensures
        r == if a > b {
            a
        } else {
            b
        },
{
    if a > b {
        a
    } else {
        b
    }
}

/// The square of a number that is small enough for the product to fit.
pub fn square(num: i32) -> (r: i32)
    requires
        -46340 <= num <= 46340,
    ensures
        r == num * num,
{
    proof {
        assert(0 <= num * num <= 46340 * 46340) by (nonlinear_arith)
            requires
                -46340 <= num <= 46340,
        ;
    }
    num * num
}

/// Whether the number is negative, decided by an early return.
pub fn check_number(n: i32) -> (r: bool)
    ensures
        r == (n < 0),
{
    if n < 0 {
        return true;
    }
    false
}

/// The greeting line for a non-empty name.
pub fn generate_nametag_text(name: String) -> (r: String)
    requires
        name@.len() > 0,
    ensures
        r@ == "Hi! My name is "@ + name@,
{
    let mut s = String::from_str("Hi! My name is ");
    s.append(name.as_str());
    s
}

/// A decimal integer string fails to parse.
#[derive(Clone, Copy, Debug, PartialEq, Eq, Structural)]
pub enum ParseError {
    Invalid,
}

/// What a decimal integer string denotes: an optional plus or minus
/// sign, then one or more digits, within the type's range. A bare sign
/// denotes nothing.
pub open spec fn parse_i64_spec(s: Seq<char>) -> Option<i64> {
    if s.len() >= 2 && s[0] == '-' {
        let t = s.skip(1);
        if text::all_digits(t) && text::seq_val(t) <= i64::MAX as nat + 1 {
            Some((0 - text::seq_val(t) as int) as i64)
        } else {
            None
        }
    } else if s.len() >= 2 && s[0] == '+' {
        let t = s.skip(1);
        if text::all_digits(t) && text::seq_val(t) <= i64::MAX as nat {
            Some(text::seq_val(t) as i64)
        } else {
            None
        }
    } else if s.len() >= 1 && text::all_digits(s) && text::seq_val(s) <= i64::MAX as nat {
        Some(text::seq_val(s) as i64)
    } else {
        None
    }
}

/// Parse a decimal integer, reporting failure instead of panicking.
pub fn parse_number(t: &str) -> (r: Result<i64, ParseError>)
    ensures
        match r {
            Ok(v) => parse_i64_spec(t@) == Some(v),
            Err(_) => parse_i64_spec(t@) is None,
        },
{
    let n = t.unicode_len();
    if n == 0 {
        return Err(ParseError::Invalid);
    }
    let first = t.get_char(0);
    let negative = first == '-';
    let signed = negative || first == '+';
    let start: usize = if signed {
        1
    } else {
        0
    };
    if start == n {
        return Err(ParseError::Invalid);
    }
    let ghost d = t@.skip(start as int);
    let mut k = start;
    let mut acc: u64 = 0;
    while k < n
        invariant
            start <= k <= n,
            start < n,
            n == t@.len(),
            d == t@.skip(start as int),
            negative == (t@[0] == '-'),
            signed == (t@[0] == '-' || t@[0] == '+'),
            start == if signed {
                1int
            } else {
                0int
            },
            forall|j: int| start <= j < k ==> text::is_digit(t@[j]),
            acc as nat == text::seq_val(t@.subrange(start as int, k as int)),
            acc <= 0x8000_0000_0000_0000u64,
        decreases n - k,
    {
        let c = t.get_char(k);
        if !text::is_digit_char(c) {
            proof {
                assert(d[k - start] == t@[k as int]);
                assert(!text::all_digits(d));
                if !signed {
                    assert(t@.skip(0) =~= t@);
                    assert(!text::all_digits(t@));
                }
            }
            return Err(ParseError::Invalid);
        }
        let dv = (c as u32 - '0' as u32) as u64;
        proof {
            assert(dv == text::digit_val(t@[k as int]));
            assert(t@.subrange(start as int, (k + 1) as int) =~= t@.subrange(
                start as int,
                k as int,
            ).push(t@[k as int]));
            text::lemma_seq_val_push(t@.subrange(start as int, k as int), t@[k as int]);
            text::lemma_acc_step(acc as nat, dv as nat);
        }
        let limit = (u64::MAX - dv) / 10;
        if acc > limit || acc * 10 + dv > 0x8000_0000_0000_0000u64 {
            proof {
                let pre = t@.subrange(start as int, (k + 1) as int);
                assert(pre =~= d.subrange(0, (k + 1 - start) as int));
                text::lemma_seq_val_extend(pre, d);
                assert(text::seq_val(d) > i64::MAX as nat + 1);
                if !signed {
                    assert(t@.skip(0) =~= t@);
                }
            }
            return Err(ParseError::Invalid);
        }
        acc = acc * 10 + dv;
        k += 1;
    }
    proof {
        assert(d =~= t@.subrange(start as int, n as int));
        assert(forall|j: int| 0 <= j < d.len() ==> text::is_digit(#[trigger] d[j]));
        if !signed {
            assert(t@.skip(0) =~= t@);
        }
    }
    if negative {
        proof {
            assert(d.len() >= 1);
            assert(t@.len() >= 2);
        }
        if acc == 0x8000_0000_0000_0000u64 {
            Ok(i64::MIN)
        } else {
            Ok(0i64 - acc as i64)
        }
    } else {
        if acc > 0x7fff_ffff_ffff_ffffu64 {
            return Err(ParseError::Invalid);
        }
        Ok(acc as i64)
    }
}

/// A rectangle measured in whole pixels.
pub struct Rectangle {
    pub width: u32,
    pub height: u32,
}

impl Rectangle {
    /// The rectangle's area.
    pub fn area(&self) -> (r: u64)
        ensures
            r == self.width * self.height,
    {
        proof {
            assert((self.width as int) * (self.height as int) <= 0xffff_ffff * 0xffff_ffff)
                by (nonlinear_arith)
                requires
                    self.width <= 0xffff_ffffu32 && self.height <= 0xffff_ffffu32,
            ;
        }
        (self.width as u64) * (self.height as u64)
    }
}

/// A message a program might route, each variant with its own payload.
#[derive(Debug)]
pub enum Message {
    Quit,
    Echo(String),
    Move { x: i32, y: i32 },
    ChangeColor(i32, i32, i32),
}

/// A short tag for each message variant.
pub fn message_tag(m: &Message) -> (r: u32)
    ensures
        (*m matches Message::Quit) ==> r == 0,
        (*m matches Message::Echo(_)) ==> r == 1,
        (*m matches Message::Move { .. }) ==> r == 2,
        (*m matches Message::ChangeColor(..)) ==> r == 3,
{
    match m {
        Message::Quit => 0,
        Message::Echo(_) => 1,
        Message::Move { .. } => 2,
        Message::ChangeColor(..) => 3,
    }
}

/// The string slice with more bytes; the second when they tie.
pub fn longest<'a>(x: &'a str, y: &'a str) -> (r: &'a str)
    ensures
        r@ == if x.spec_bytes().len() > y.spec_bytes().len() {
            x@
        } else {
            y@
        },
{
    if x.as_bytes().len() > y.as_bytes().len() {
        x
    } else {
        y
    }
}

/// Program configuration of the line-filter project: a pattern and a
/// file name taken from the argument list, program name first.
#[derive(Debug)]
pub struct Config {
    pub pattern: String,
    pub filename: String,
}

impl Config {
    /// Take the pattern and the file name from the arguments, reporting
    /// which of the two is missing.
    pub fn new(args: Vec<String>) -> (r: Result<Config, &'static str>)
        ensures
            args@.len() >= 3 ==> (r matches Ok(c) && c.pattern@ == args@[1]@ && c.filename@
                == args@[2]@),
            args@.len() < 2 ==> (r matches Err(e) && e@ == "Didn't get a pattern string"@),
            args@.len() == 2 ==> (r matches Err(e) && e@ == "Didn't get a file name"@),
    {
        let mut args = args;
        if args.len() < 2 {
            return Err("Didn't get a pattern string");
        }
        if args.len() < 3 {
            return Err("Didn't get a file name");
        }
        let filename = args.remove(2);
        let pattern = args.remove(1);
        Ok(Config { pattern, filename })
    }
}

/// The declared constant of the constants exercise.
pub const NUMBER: i32 = 3;

/// The array exercise: build the five numbers and read the second.
pub fn arrays1_main() -> (r: i32)
    ensures
        r == 2,
{
    let a: [i32; 5] = [1, 2, 3, 4, 5];
    let second = a[1];
    second
}

/// Checked element access of the out-of-bounds exercise.
fn array_get(a: &[i32; 5], i: usize) -> (r: Option<i32>)
    ensures
        r is Some <==> i < 5,
{
    if i < 5 {
        Some(a[i])
    } else {
        None
    }
}

/// The out-of-bounds exercise: index ten of five elements is handled,
/// never dereferenced.
pub fn arrays3_main() -> (r: &'static str)
    ensures
        r@ == "Out of bounds"@,
{
    let a: [i32; 5] = [10, 20, 30, 40, 50];
    let index: usize = 10;
    match array_get(&a, index) {
        Some(_) => "Value",
        None => "Out of bounds",
    }
}

/// The boolean-logic exercise: the expression comes out true.
pub fn booleans2_main() -> (r: bool)
    ensures
        r,
{
    let a = true;
    let b = false;
    let is_rust_fun = (a || b) && !b;
    is_rust_fun
}

/// The truncation exercise: a value that fits survives both casts.
pub fn casting2_main() -> (r: (u16, u8))
    ensures
        r.0 == 255,
        r.1 == 255,
        r.0 == r.1 as u16,
{
    let big_n: u16 = 255;
    let small_n = big_n as u8;
    (big_n, small_n)
}

/// The constants exercise: a mutable variable instead of a constant.
pub fn constants2_main() -> (r: i32)
    ensures
        r == 20,
{
    let mut x: i32 = 10;
    x = 20;
    x
}

/// The integer-types exercise: the extremes of the two byte types.
pub fn integers1_main() -> (r: (u8, i8))
    ensures
        r.0 == 255,
        r.1 == -128,
{
    let x: u8 = 255;
    let y: i8 = -128;
    (x, y)
}

/// The overflow exercise: a type wide enough for three hundred.
pub fn integers2_main() -> (r: u16)
    ensures
        r == 300,
{
    let x: u16 = 300;
    x
}

/// The destructuring exercise.
pub fn tuples2_main() -> (r: (i32, i32, i32))
    ensures
        r == (1i32, 2i32, 3i32),
{
    let t = (1i32, 2i32, 3i32);
    let (x, y, z) = t;
    (x, y, z)
}

/// The mutability exercise: the variable is reassigned.
pub fn variables1_main() -> (r: i32)
    ensures
        r == 6,
{
    let mut x: i32 = 5;
    x = 6;
    x
}

/// The initialization exercise: every path assigns before use.
pub fn variables2_main() -> (r: i32)
    ensures
        r == 10,
{
    let x: i32;
    let condition = true;
    if condition {
        x = 10;
    } else {
        x = 0;
    }
    x
}

/// The scope exercise: the variable, declared in the outer block, is
/// still readable after the inner block.
pub fn variables3_main() -> (r: i32)
    ensures
        r == 10,
{
    let x: i32 = 10;
    let inner: i32 = x;
    if inner != x {
        return 0;
    }
    x
}

/// The shadowing half of the scope exercise: the inner binding hides the
/// outer one only inside its block.
pub fn practice() -> (r: (i32, i32))
    ensures
        r == (10i32, 5i32),
{
    let x: i32 = 5;
    let inner: i32 = 10;
    (inner, x)
}

/// The shadowing exercise: the string becomes a number of the same name.
pub fn variables5_main() -> (r: i64)
    ensures
        r == 10,
{
    let x = "5";
    proof {
        reveal_strlit("5");
        let s = "5"@;
        assert(s.len() == 1);
        assert(s.drop_last() =~= Seq::<char>::empty());
        assert(text::seq_val(Seq::<char>::empty()) == 0);
        assert(s.last() == '5');
        assert(text::seq_val(s) == 5);
        assert(parse_i64_spec(s) == Some(5i64));
    }
    let x: i64 = match parse_number(x) {
        Ok(v) => v,
        Err(_) => 0,
    };
    x + 5
}

/// The implicit-return exercise.
pub fn functions5_main() -> (r: i32)
    ensures
        r == 9,
{
    let answer = square(3);
    answer
}

/// The early-return exercise on a negative and a positive probe.
pub fn functions7_main() -> (r: (bool, bool))
    ensures
        r == (true, false),
{
    (check_number(-5), check_number(10))
}

/// The match-guard exercise: one hundred fifty is a big number.
pub fn match6_main() -> (r: &'static str)
    ensures
        r@ == "Big number"@,
{
    let number: i32 = 150;
    match number {
        x if x > 100 => "Big number",
        _ => "Small number",
    }
}

/// The move exercise: the value lives on under its new owner.
pub fn ownership1_main() -> (r: String)
    ensures
        r@ == "hello"@,
{
    let s1 = String::from_str("hello");
    let s2 = s1;
    s2
}

/// The clone exercise: both owners hold the value.
pub fn ownership2_main() -> (r: (String, String))
    ensures
        r.0@ == "hello"@,
        r.1@ == "hello"@,
{
    let s1 = String::from_str("hello");
    let s2 = s1.clone();
    (s1, s2)
}

/// The ownership quiz: clones keep every use valid.
pub fn ownership_quiz1_main() -> (r: (String, String, String))
    ensures
        r.0@ == "Rust"@,
        r.1@ == "Rust"@,
        r.2@ == "Rust"@,
{
    let s1 = String::from_str("Rust");
    let s2 = s1.clone();
    let s3 = s2.clone();
    let printed = s3.clone();
    (s2, s3, printed)
}

/// The slices exercise: the two words of the greeting.
pub fn slices1_main() -> (r: (String, String))
    ensures
        r.0@ == "Hello"@,
        r.1@ == "World"@,
{
    let s = String::from_str("Hello World");
    proof {
        reveal_strlit("Hello World");
        reveal_strlit("Hello");
        reveal_strlit("World");
    }
    let hello = s.as_str().substring_char(0, 5).to_owned();
    let world = s.as_str().substring_char(6, 11).to_owned();
    proof {
        assert(hello@ =~= "Hello"@);
        assert(world@ =~= "World"@);
    }
    (hello, world)
}

/// The methods exercise: the rectangle's area.
pub fn methods1_main() -> (r: u64)
    ensures
        r == 1500,
{
    let rect = Rectangle { width: 30, height: 50 };
    rect.area()
}

/// The enum exercise: one message of each variant.
pub fn enums2_main() -> (r: u32)
    ensures
        r == 6,
{
    let m1 = Message::Quit;
    let m2 = Message::Echo(String::from_str("Hello"));
    let m3 = Message::Move { x: 10, y: 20 };
    let m4 = Message::ChangeColor(255, 0, 0);
    message_tag(&m1) + message_tag(&m2) + message_tag(&m3) + message_tag(&m4)
}

/// The result exercise: the three sample numbers all parse.
pub fn errors2_main() -> (r: Vec<i64>)
    ensures
        r@ == seq![42i64, 93i64, 18i64],
{
    proof {
        reveal_strlit("42");
        reveal_strlit("93");
        reveal_strlit("18");
        lemma_two_digit("42"@, 42);
        lemma_two_digit("93"@, 93);
        lemma_two_digit("18"@, 18);
    }
    let mut out: Vec<i64> = Vec::new();
    match parse_number("42") {
        Ok(v) => out.push(v),
        Err(_) => (),
    }
    match parse_number("93") {
        Ok(v) => out.push(v),
        Err(_) => (),
    }
    match parse_number("18") {
        Ok(v) => out.push(v),
        Err(_) => (),
    }
    proof {
        assert(out@ =~= seq![42i64, 93i64, 18i64]);
    }
    out
}

/// A two-character digit string denotes its two-digit value.
proof fn lemma_two_digit(s: Seq<char>, v: i64)
    requires
        s.len() == 2,
        text::is_digit(s[0]),
        text::is_digit(s[1]),
        0 <= v <= 99,
        text::digit_val(s[0]) * 10 + text::digit_val(s[1]) == v,
    ensures
        parse_i64_spec(s) == Some(v),
{
    assert(s.drop_last().drop_last() =~= Seq::<char>::empty());
    assert(text::seq_val(Seq::<char>::empty()) == 0);
    assert(s.drop_last().len() == 1);
    assert(s.drop_last().last() == s[0]);
    assert(text::seq_val(s.drop_last()) == text::digit_val(s[0]));
    assert(text::seq_val(s) == text::digit_val(s[0]) * 10 + text::digit_val(s[1]));
    assert(s[0] != '-');
}

/// The lifetimes exercise: the longer of the two sample strings.
pub fn lifetimes1_main() -> (r: String)
    ensures
        r@ == "long string is long"@,
{
    let string1 = String::from_str("long string is long");
    let string2 = String::from_str("xyz");
    proof {
        reveal_strlit("long string is long");
        reveal_strlit("xyz");
        assert(vstd::utf8::is_ascii_chars("long string is long"@));
        assert(vstd::utf8::is_ascii_chars("xyz"@));
        vstd::utf8::is_ascii_chars_encode_utf8("long string is long"@);
        vstd::utf8::is_ascii_chars_encode_utf8("xyz"@);
    }
    let result = longest(string1.as_str(), string2.as_str());
    result.to_owned()
}

/// The iterator exercise: the first two elements in order.
pub fn iterators1_main() -> (r: (Option<i32>, Option<i32>))
    ensures
        r == (Some(1i32), Some(2i32)),
{
    let mut v: Vec<i32> = Vec::new();
    v.push(1);
    v.push(2);
    v.push(3);
    let first = if v.len() > 0 {
        Some(v[0])
    } else {
        None
    };
    let second = if v.len() > 1 {
        Some(v[1])
    } else {
        None
    };
    (first, second)
}

/// The lines that contain the pattern, in input order.
pub open spec fn grep_model(lines: Seq<Seq<char>>, pattern: Seq<char>) -> Seq<Seq<char>>
    decreases lines.len(),
{
    if lines.len() == 0 {
        Seq::empty()
    } else if text::contains_seq(lines.last(), pattern) {
        grep_model(lines.drop_last(), pattern).push(lines.last())
    } else {
        grep_model(lines.drop_last(), pattern)
    }
}

/// Keep the lines that contain the pattern.
pub fn grep_lines(lines: &Vec<String>, pattern: &str) -> (r: Vec<String>)
    ensures
        crate::locator::names_model(r@) == grep_model(
            crate::locator::names_model(lines@),
            pattern@,
        ),
{
    let n = lines.len();
    let mut out: Vec<String> = Vec::new();
    let mut i: usize = 0;
    while i < n
        invariant
            0 <= i <= n,
            n == lines@.len(),
            crate::locator::names_model(out@) == grep_model(
                crate::locator::names_model(lines@).take(i as int),
                pattern@,
            ),
        decreases n - i,
    {
        if text::contains_str(lines[i].as_str(), pattern) {
            out.push(lines[i].clone());
        }
        i += 1;
        proof {
            let all = crate::locator::names_model(lines@);
            assert(all.take(i as int).drop_last() =~= all.take(i - 1));
            assert(all.take(i as int).last() == all[i - 1]);
            assert(crate::locator::names_model(out@) =~= grep_model(
                all.take(i as int),
                pattern@,
            ));
        }
    }
    proof {
        assert(crate::locator::names_model(lines@).take(n as int) =~= crate::locator::names_model(
            lines@,
        ));
    }
    out
}

} // verus!
