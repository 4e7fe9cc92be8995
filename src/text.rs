use vstd::prelude::*;
use vstd::string::{StrSliceExecFns, StringExecFns};

verus! {

broadcast use vstd::string::group_string_axioms;

/// Whether `s` spells `lit`.
pub fn is_text(s: &String, lit: &str) -> (r: bool)
    ensures
        r == (s@ == lit@),
{
    let t = lit.to_owned();
    s.eq(&t)
}

/// Whether `s` ends with `suffix`.
pub fn ends_with(s: &String, suffix: &str) -> (r: bool)
    ensures
        r == (suffix@.len() <= s@.len() && s@.subrange(
            s@.len() - suffix@.len(),
            s@.len() as int,
        ) == suffix@),
{
    let a = chars_of(s.as_str());
    let b = chars_of(suffix);
    if b.len() > a.len() {
        return false;
    }
    let off = a.len() - b.len();
    let mut i: usize = 0;
    while i < b.len()
        invariant
            a@ == s@,
            b@ == suffix@,
            off + b@.len() == a@.len(),
            a@.len() == a.len(),
            i <= b@.len(),
            forall|k: int| 0 <= k < i ==> a@[off + k] == b@[k],
        decreases b@.len() - i,
    {
        if a[off + i] != b[i] {
            proof {
                assert(s@.subrange(off as int, s@.len() as int)[i as int] != suffix@[i as int]);
            }
            return false;
        }
        i = i + 1;
    }
    proof {
        assert(s@.subrange(off as int, s@.len() as int) =~= suffix@);
    }
    true
}

/// The decimal digit with value `d`.
pub open spec fn digit_char(d: nat) -> char {
    (('0' as u32) + d) as char
}

/// The decimal numeral of `n`, without leading zeros.
pub open spec fn nat_text(n: nat) -> Seq<char>
    decreases n,
{
    if n < 10 {
        seq![digit_char(n)]
    } else {
        nat_text(n / 10) + seq![digit_char(n % 10)]
    }
}

/// The decimal numeral of `v`, with a minus sign when it is negative.
pub open spec fn int_text(v: int) -> Seq<char> {
    if v < 0 {
        seq!['-'] + nat_text((-v) as nat)
    } else {
        nat_text(v as nat)
    }
}

fn digit_str(d: u64) -> (r: &'static str)
    requires
        d < 10,
    ensures
        r@ == seq![digit_char(d as nat)],
{
    if d == 0 {
        proof {
            reveal_strlit("0");
        }
        "0"
    } else if d == 1 {
        proof {
            reveal_strlit("1");
        }
        "1"
    } else if d == 2 {
        proof {
            reveal_strlit("2");
        }
        "2"
    } else if d == 3 {
        proof {
            reveal_strlit("3");
        }
        "3"
    } else if d == 4 {
        proof {
            reveal_strlit("4");
        }
        "4"
    } else if d == 5 {
        proof {
            reveal_strlit("5");
        }
        "5"
    } else if d == 6 {
        proof {
            reveal_strlit("6");
        }
        "6"
    } else if d == 7 {
        proof {
            reveal_strlit("7");
        }
        "7"
    } else if d == 8 {
        proof {
            reveal_strlit("8");
        }
        "8"
    } else {
        proof {
            reveal_strlit("9");
        }
        "9"
    }
}

/// Appends the decimal numeral of `n`.
pub fn push_nat(out: &mut String, n: u64)
    ensures
        final(out)@ == old(out)@ + nat_text(n as nat),
    decreases n,
{
    if n >= 10 {
        push_nat(out, n / 10);
        out.append(digit_str(n % 10));
        proof {
            assert(final(out)@ =~= old(out)@ + nat_text(n as nat));
        }
    } else {
        out.append(digit_str(n));
    }
}

/// Appends the decimal numeral of `v`, with a minus sign when it is negative.
pub fn push_int(out: &mut String, v: i64)
    ensures
        final(out)@ == old(out)@ + int_text(v as int),
{
    if v < 0 {
        proof {
            reveal_strlit("-");
        }
        out.append("-");
        let mag: u64 = if v == i64::MIN {
            9223372036854775808u64
        } else {
            (-v) as u64
        };
        push_nat(out, mag);
        proof {
            assert(final(out)@ =~= old(out)@ + int_text(v as int));
        }
    } else {
        push_nat(out, v as u64);
    }
}

/// The decimal numeral of `v` as a string.
pub fn int_to_text(v: i64) -> (r: String)
    ensures
        r@ == int_text(v as int),
{
    let mut r = String::new();
    push_int(&mut r, v);
    proof {
        assert(r@ =~= int_text(v as int));
    }
    r
}

/// The characters of `s`, in order.
pub fn chars_of(s: &str) -> (r: Vec<char>)
    ensures
        r@ == s@,
{
    let mut chars: Vec<char> = Vec::new();
    for c in it: s.chars()
        invariant
            chars@ == it.seq().take(it.index() as int),
    {
        chars.push(c);
    }
    proof {
        assert(chars@ =~= s@);
    }
    chars
}

/// `t` with a backslash before each double quote, as an assembler string
/// literal holds it.
pub open spec fn escape(t: Seq<char>) -> Seq<char>
    decreases t.len(),
{
    if t.len() == 0 {
        Seq::empty()
    } else if t.last() == '"' {
        escape(t.drop_last()) + seq!['\\', '"']
    } else {
        escape(t.drop_last()) + seq![t.last()]
    }
}

proof fn lemma_escape_plain(t: Seq<char>, a: int, b: int)
    requires
        0 <= a <= b <= t.len(),
        forall|k: int| a <= k < b ==> #[trigger] t[k] != '"',
    ensures
        escape(t.take(b)) == escape(t.take(a)) + t.subrange(a, b),
    decreases b - a,
{
    if a < b {
        lemma_escape_plain(t, a, b - 1);
        assert(t.take(b).drop_last() =~= t.take(b - 1));
        assert(t.take(b).last() == t[b - 1]);
        assert(t.subrange(a, b) =~= t.subrange(a, b - 1).push(t[b - 1]));
        assert(escape(t.take(a)) + t.subrange(a, b - 1) + seq![t[b - 1]] =~= escape(t.take(a))
            + t.subrange(a, b));
    } else {
        assert(t.subrange(a, b) =~= Seq::<char>::empty());
        assert(escape(t.take(a)) + t.subrange(a, b) =~= escape(t.take(a)));
    }
}

/// Appends `t` with a backslash before each double quote.
pub fn push_escaped(out: &mut String, t: &String)
    ensures
        final(out)@ == old(out)@ + escape(t@),
{
    let chars = chars_of(t.as_str());
    let ghost s = t@;
    let mut start: usize = 0;
    let mut i: usize = 0;
    proof {
        assert(s.take(0) =~= Seq::<char>::empty());
    }
    while i < chars.len()
        invariant
            chars@ == s,
            s == t@,
            start <= i <= s.len(),
            out@ == old(out)@ + escape(s.take(start as int)),
            forall|k: int| start <= k < i ==> #[trigger] s[k] != '"',
        decreases s.len() - i,
    {
        if chars[i] == '"' {
            proof {
                lemma_escape_plain(s, start as int, i as int);
            }
            out.append(t.as_str().substring_char(start, i));
            proof {
                reveal_strlit("\\\"");
            }
            out.append("\\\"");
            proof {
                assert(s.take(i + 1).drop_last() =~= s.take(i as int));
                assert(s.take(i + 1).last() == '"');
                assert(out@ =~= old(out)@ + escape(s.take(i + 1)));
            }
            start = i + 1;
        }
        i = i + 1;
    }
    proof {
        lemma_escape_plain(s, start as int, i as int);
    }
    out.append(t.as_str().substring_char(start, i));
    proof {
        assert(s.take(i as int) =~= s);
        assert(out@ =~= old(out)@ + escape(s));
    }
}

/// The first position of `x` in `s`, if it occurs.
pub open spec fn index_of(s: Seq<Seq<char>>, x: Seq<char>) -> Option<int>
    decreases s.len(),
{
    if s.len() == 0 {
        None
    } else {
        match index_of(s.drop_last(), x) {
            Some(i) => Some(i),
            None => if s.last() == x {
                Some(s.len() - 1)
            } else {
                None
            },
        }
    }
}

/// `s` with `x` added at the end unless it holds `x` already.
pub open spec fn add_text(s: Seq<Seq<char>>, x: Seq<char>) -> Seq<Seq<char>> {
    if s.contains(x) {
        s
    } else {
        s.push(x)
    }
}

proof fn lemma_index_of_first(s: Seq<Seq<char>>, x: Seq<char>, i: int)
    requires
        0 <= i < s.len(),
        s[i] == x,
        forall|j: int| 0 <= j < i ==> s[j] != x,
    ensures
        index_of(s, x) == Some(i),
    decreases s.len(),
{
    if i < s.len() - 1 {
        assert(s.drop_last()[i] == x);
        lemma_index_of_first(s.drop_last(), x, i);
    } else {
        lemma_index_of_absent(s.drop_last(), x);
    }
}

proof fn lemma_index_of_absent(s: Seq<Seq<char>>, x: Seq<char>)
    requires
        forall|j: int| 0 <= j < s.len() ==> s[j] != x,
    ensures
        index_of(s, x) is None,
    decreases s.len(),
{
    if s.len() > 0 {
        lemma_index_of_absent(s.drop_last(), x);
    }
}

/// A list of texts, such as the entries of the read-only data section or
/// the names of storage cells.
pub struct TextList {
    items: Vec<String>,
}

impl View for TextList {
    type V = Seq<Seq<char>>;

    closed spec fn view(&self) -> Seq<Seq<char>> {
        self.items@.map_values(|s: String| s@)
    }
}

impl TextList {
    /// An empty list.
    pub fn new() -> (r: TextList)
        ensures
            r@ == Seq::<Seq<char>>::empty(),
    {
        let r = TextList { items: Vec::new() };
        proof {
            assert(r@ =~= Seq::<Seq<char>>::empty());
        }
        r
    }

    /// The number of texts held.
    pub fn len(&self) -> (r: usize)
        ensures
            r == self@.len(),
    {
        self.items.len()
    }

    /// The text at position `i`.
    pub fn get(&self, i: usize) -> (r: &String)
        requires
            i < self@.len(),
        ensures
            r@ == self@[i as int],
    {
        &self.items[i]
    }

    /// The first position of `s`, if the list holds it.
    pub fn position(&self, s: &String) -> (r: Option<usize>)
        ensures
            r matches Some(i) ==> index_of(self@, s@) == Some(i as int),
            r is None ==> index_of(self@, s@) is None,
    {
        let mut i: usize = 0;
        while i < self.items.len()
            invariant
                i <= self@.len(),
                self@.len() == self.items@.len(),
                forall|j: int| 0 <= j < i ==> self@[j] != s@,
            decreases self.items@.len() - i,
        {
            if self.items[i].eq(s) {
                proof {
                    lemma_index_of_first(self@, s@, i as int);
                }
                return Some(i);
            }
            i = i + 1;
        }
        proof {
            lemma_index_of_absent(self@, s@);
        }
        None
    }

    /// Whether the list holds `s`.
    pub fn contains(&self, s: &String) -> (r: bool)
        ensures
            r == self@.contains(s@),
    {
        match self.position(s) {
            Some(_) => {
                proof {
                    lemma_index_of_some_contains(self@, s@);
                }
                true
            },
            None => {
                proof {
                    lemma_index_of_none(self@, s@);
                }
                false
            },
        }
    }

    /// Adds `s` at the end.
    pub fn push(&mut self, s: &String)
        ensures
            final(self)@ == old(self)@.push(s@),
    {
        self.items.push(s.clone());
        proof {
            assert(self@ =~= old(self)@.push(s@));
        }
    }

    /// Adds `s` unless the list holds it already.
    pub fn add(&mut self, s: &String)
        ensures
            final(self)@ == add_text(old(self)@, s@),
    {
        match self.position(s) {
            Some(_) => {
                proof {
                    lemma_index_of_some_contains(old(self)@, s@);
                }
            },
            None => {
                proof {
                    lemma_index_of_none(old(self)@, s@);
                }
                self.items.push(s.clone());
                proof {
                    assert(self@ =~= old(self)@.push(s@));
                }
            },
        }
    }
}

proof fn lemma_index_of_some_contains(s: Seq<Seq<char>>, x: Seq<char>)
    requires
        index_of(s, x) is Some,
    ensures
        s.contains(x),
        0 <= index_of(s, x)->0 < s.len(),
        s[index_of(s, x)->0] == x,
    decreases s.len(),
{
    if s.len() > 0 {
        if index_of(s.drop_last(), x) is Some {
            lemma_index_of_some_contains(s.drop_last(), x);
            assert(s[index_of(s, x)->0] == s.drop_last()[index_of(s, x)->0]);
        } else {
            assert(s[s.len() - 1] == x);
        }
    }
}

proof fn lemma_index_of_none(s: Seq<Seq<char>>, x: Seq<char>)
    requires
        index_of(s, x) is None,
    ensures
        !s.contains(x),
    decreases s.len(),
{
    if s.len() > 0 {
        lemma_index_of_none(s.drop_last(), x);
        if s.contains(x) {
            let k = choose|k: int| 0 <= k < s.len() && s[k] == x;
            if k < s.len() - 1 {
                assert(s.drop_last()[k] == x);
            }
        }
    }
}

/// Adding a text keeps a sequence free of repeats.
pub proof fn lemma_add_text_no_duplicates(s: Seq<Seq<char>>, x: Seq<char>)
    requires
        s.no_duplicates(),
    ensures
        add_text(s, x).no_duplicates(),
        add_text(s, x).contains(x),
        forall|y: Seq<char>| s.contains(y) ==> #[trigger] add_text(s, x).contains(y),
{
    if !s.contains(x) {
        assert forall|y: Seq<char>| s.contains(y) implies #[trigger] add_text(s, x).contains(y) by {
            let k = choose|k: int| 0 <= k < s.len() && s[k] == y;
            assert(s.push(x)[k] == y);
        }
        assert(s.push(x)[s.len() as int] == x);
        assert forall|i: int, j: int|
            0 <= i < s.push(x).len() && 0 <= j < s.push(x).len() && i != j implies s.push(x)[i]
            != s.push(x)[j] by {
            if i < s.len() && j < s.len() {
                assert(s.push(x)[i] == s[i] && s.push(x)[j] == s[j]);
            } else if i < s.len() {
                assert(s.push(x)[i] == s[i]);
            } else if j < s.len() {
                assert(s.push(x)[j] == s[j]);
            }
        }
    }
}

} // verus!
