pub mod diff;
pub mod status;

use vstd::prelude::*;

use crate::text::{chars_of, string_push};

verus! {

/// The decimal digit `d`.
pub open spec fn digit_char(d: nat) -> char {
    (48 + d) as char
}

/// The decimal notation of `n`, without leading zeros.
pub open spec fn decimal(n: nat) -> Seq<char>
    decreases n,
{
    if n < 10 {
        seq![digit_char(n)]
    } else {
        decimal(n / 10).push(digit_char(n % 10))
    }
}

/// The name of the file of an image saved at `millis` milliseconds after the Unix epoch
/// when no output path is given.
pub open spec fn temp_png_name(millis: nat) -> Seq<char> {
    seq!['g', 'i', 't', 's', 'h', 'o', 't', '_'] + decimal(millis) + seq!['.', 'p', 'n', 'g']
}

/// The path of the file named `name` in the directory `dir`: a `/` goes between them
/// unless `dir` is empty or already ends with one.
pub open spec fn joined_path(dir: Seq<char>, name: Seq<char>) -> Seq<char> {
    if dir.len() == 0 || dir.last() == '/' {
        dir + name
    } else {
        dir + seq!['/'] + name
    }
}

/// Appends the decimal notation of `n` to `r`.
fn push_decimal(r: &mut String, n: u128)
    ensures
        final(r)@ == old(r)@ + decimal(n as nat),
    decreases n,
{
    let digits: [char; 10] = ['0', '1', '2', '3', '4', '5', '6', '7', '8', '9'];
    assert(forall|d: int| 0 <= d < 10 ==> digits@[d] == digit_char(d as nat));
    if n >= 10 {
        push_decimal(r, n / 10);
    }
    let d = (n % 10) as usize;
    string_push(r, digits[d]);
}

/// Appends the characters of `text` to `r`.
fn push_str(r: &mut String, text: &str)
    ensures
        final(r)@ == old(r)@ + text@,
{
    for c in it: text.chars()
        invariant
            r@ == old(r)@ + it.seq().take(it.index() as int),
    {
        string_push(r, c);
    }
}

/// The file an image is written to when no output path is given: `gitshot_<millis>.png`
/// in the temporary directory `temp_dir`, named by the time of saving.
pub fn temp_png_path(temp_dir: &str, millis: u128) -> (r: String)
    ensures
        r@ == joined_path(temp_dir@, temp_png_name(millis as nat)),
{
    let mut r = String::new();
    proof {
        reveal_strlit("gitshot_");
        reveal_strlit(".png");
        reveal_strlit("/");
    }
    push_str(&mut r, temp_dir);
    let dir = chars_of(temp_dir);
    let n = dir.len();
    if n > 0 && dir[n - 1] != '/' {
        push_str(&mut r, "/");
    }
    push_str(&mut r, "gitshot_");
    push_decimal(&mut r, millis);
    push_str(&mut r, ".png");
    r
}

} // verus!
