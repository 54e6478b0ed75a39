use vstd::prelude::*;

verus! {

/// The character of a decimal digit.
pub open spec fn digit_char(d: nat) -> char {
    if d == 0 {
        '0'
    } else if d == 1 {
        '1'
    } else if d == 2 {
        '2'
    } else if d == 3 {
        '3'
    } else if d == 4 {
        '4'
    } else if d == 5 {
        '5'
    } else if d == 6 {
        '6'
    } else if d == 7 {
        '7'
    } else if d == 8 {
        '8'
    } else {
        '9'
    }
}

/// The decimal digits of `n`, with no leading zero.
pub open spec fn decimal_chars(n: nat) -> Seq<char>
    decreases n,
{
    if n < 10 {
        seq![digit_char(n)]
    } else {
        decimal_chars(n / 10) + seq![digit_char(n % 10)]
    }
}

/// `s` without the slashes that end it.
pub open spec fn trim_slashes(s: Seq<char>) -> Seq<char>
    decreases s.len(),
{
    if s.len() > 0 && s.last() == '/' {
        trim_slashes(s.drop_last())
    } else {
        s
    }
}

/// The name of the snapshot file of shard `i`: `shard-` and `i` in decimal.
pub open spec fn shard_file_name_of(i: nat) -> Seq<char> {
    seq!['s', 'h', 'a', 'r', 'd', '-'] + decimal_chars(i)
}

/// The path of the snapshot file of shard `i` in `directory`, whose ending
/// slashes are dropped.
pub open spec fn shard_path_of(directory: Seq<char>, i: nat) -> Seq<char> {
    trim_slashes(directory) + seq!['/'] + shard_file_name_of(i)
}

fn digit_str(d: usize) -> (r: &'static str)
    requires
        d < 10,
    ensures
        r@ == seq![digit_char(d as nat)],
{
    proof {
        reveal_strlit("0");
        reveal_strlit("1");
        reveal_strlit("2");
        reveal_strlit("3");
        reveal_strlit("4");
        reveal_strlit("5");
        reveal_strlit("6");
        reveal_strlit("7");
        reveal_strlit("8");
        reveal_strlit("9");
    }
    match d {
        0 => "0",
        1 => "1",
        2 => "2",
        3 => "3",
        4 => "4",
        5 => "5",
        6 => "6",
        7 => "7",
        8 => "8",
        _ => "9",
    }
}

fn append_decimal(s: &mut String, n: usize)
    ensures
        final(s)@ == old(s)@ + decimal_chars(n as nat),
    decreases n,
{
    if n >= 10 {
        append_decimal(s, n / 10);
    }
    s.append(digit_str(n % 10));
    assert(final(s)@ =~= old(s)@ + decimal_chars(n as nat));
}

/// The name of the snapshot file of shard `i`.
pub fn shard_file_name(i: usize) -> (r: String)
    ensures
        r@ == shard_file_name_of(i as nat),
{
    proof {
        reveal_strlit("shard-");
    }
    let mut name = String::from_str("shard-");
    append_decimal(&mut name, i);
    name
}

/// The path of the snapshot file of shard `i` in `directory`.
pub fn shard_path(directory: &str, i: usize) -> (r: String)
    ensures
        r@ == shard_path_of(directory@, i as nat),
{
    let mut j: usize = directory.unicode_len();
    assert(directory@.take(j as int) =~= directory@);
    while j > 0 && directory.get_char(j - 1) == '/'
        invariant
            j <= directory@.len(),
            trim_slashes(directory@.take(j as int)) == trim_slashes(directory@),
        decreases j,
    {
        assert(directory@.take(j as int).drop_last() =~= directory@.take(j - 1));
        j = j - 1;
    }
    proof {
        if j > 0 {
            assert(directory@.take(j as int).last() == directory@[j - 1]);
        }
        assert(directory@.subrange(0, j as int) =~= directory@.take(j as int));
        reveal_strlit("/");
    }
    let mut path = String::from_str(directory.substring_char(0, j));
    path.append("/");
    let name = shard_file_name(i);
    path.append(name.as_str());
    path
}

} // verus!
