//! Sort keys and language codes: pure functions on text.
use vstd::prelude::*;
use vstd::string::*;

verus! {

/// `String::push` appends one character to the end of the string.
pub assume_specification[ String::push ](s: &mut String, c: char)
    ensures
        final(s)@ == old(s)@.push(c),
;

/// The characters that carry Unicode's `White_Space` property.
pub open spec fn is_space(c: char) -> bool {
    let n = c as u32;
    (0x09 <= n <= 0x0D) || n == 0x20 || n == 0x85 || n == 0xA0 || n == 0x1680 || (0x2000 <= n
        <= 0x200A) || n == 0x2028 || n == 0x2029 || n == 0x202F || n == 0x205F || n == 0x3000
}

/// Lower case of a character as far as it can reach an ASCII letter: the
/// ASCII capitals, and the Kelvin sign, whose lower case is `k`.
pub open spec fn fold_lower(c: char) -> char {
    if 'A' <= c <= 'Z' {
        ((c as u8 + 32) as u8) as char
    } else if c as u32 == 0x212A {
        'k'
    } else {
        c
    }
}

/// `s` with leading and trailing white space removed.
pub open spec fn trimmed(s: Seq<char>) -> Seq<char> {
    trim_end(trim_start(s))
}

/// `s` without its leading white space.
pub open spec fn trim_start(s: Seq<char>) -> Seq<char>
    decreases s.len(),
{
    if s.len() > 0 && is_space(s[0]) {
        trim_start(s.skip(1))
    } else {
        s
    }
}

/// `s` without its trailing white space.
pub open spec fn trim_end(s: Seq<char>) -> Seq<char>
    decreases s.len(),
{
    if s.len() > 0 && is_space(s.last()) {
        trim_end(s.drop_last())
    } else {
        s
    }
}

/// True when `s` begins with `prefix` once `s` is lower-cased.
pub open spec fn starts_with_folded(s: Seq<char>, prefix: Seq<char>) -> bool {
    &&& prefix.len() <= s.len()
    &&& forall|i: int| 0 <= i < prefix.len() ==> fold_lower(#[trigger] s[i]) == prefix[i]
}

/// True when `s` begins with `prefix`, letter for letter.
pub open spec fn starts_with_exact(s: Seq<char>, prefix: Seq<char>) -> bool {
    &&& prefix.len() <= s.len()
    &&& s.take(prefix.len() as int) == prefix
}

/// `s` with its first `n` characters moved behind a comma, without the last
/// of them (the space that ends an article).
pub open spec fn article_moved(s: Seq<char>, n: int) -> Seq<char> {
    s.skip(n) + seq![',', ' '] + s.take(n - 1)
}

/// Whether a character is white space.
pub fn is_space_char(c: char) -> (r: bool)
    ensures
        r == is_space(c),
{
    let n: u32 = c as u32;
    (0x09 <= n && n <= 0x0D) || n == 0x20 || n == 0x85 || n == 0xA0 || n == 0x1680 || (0x2000
        <= n && n <= 0x200A) || n == 0x2028 || n == 0x2029 || n == 0x202F || n == 0x205F || n
        == 0x3000
}

/// The lower case of a character, as `fold_lower` defines it.
pub fn fold_lower_char(c: char) -> (r: char)
    ensures
        r == fold_lower(c),
{
    if 'A' <= c && c <= 'Z' {
        ((c as u8 + 32) as u8) as char
    } else if c as u32 == 0x212A {
        'k'
    } else {
        c
    }
}

/// The characters of `s`, in order.
pub fn chars_of(s: &str) -> (r: Vec<char>)
    ensures
        r@ == s@,
{
    let n: usize = s.unicode_len();
    let mut out: Vec<char> = Vec::new();
    let mut i: usize = 0;
    while i < n
        invariant
            n == s@.len(),
            i <= n,
            out@ == s@.take(i as int),
        decreases n - i,
    {
        out.push(s.get_char(i));
        i += 1;
    }
    out
}

/// Appends `src[from..to]` to `out`.
pub fn push_range(out: &mut String, src: &Vec<char>, from: usize, to: usize)
    requires
        from <= to <= src@.len(),
    ensures
        final(out)@ == old(out)@ + src@.subrange(from as int, to as int),
{
    let mut i: usize = from;
    while i < to
        invariant
            from <= i <= to <= src@.len(),
            out@ == old(out)@ + src@.subrange(from as int, i as int),
        decreases to - i,
    {
        out.push(src[i]);
        i += 1;
    }
}

/// Whether `s` begins with `prefix` once `s` is lower-cased.
pub fn has_prefix_folded(s: &Vec<char>, prefix: &str) -> (r: bool)
    ensures
        r == starts_with_folded(s@, prefix@),
{
    let n: usize = prefix.unicode_len();
    if s.len() < n {
        return false;
    }
    let mut i: usize = 0;
    while i < n
        invariant
            n == prefix@.len(),
            n <= s@.len(),
            i <= n,
            forall|j: int| 0 <= j < i ==> fold_lower(#[trigger] s@[j]) == prefix@[j],
        decreases n - i,
    {
        if fold_lower_char(s[i]) != prefix.get_char(i) {
            return false;
        }
        i += 1;
    }
    true
}

/// Whether `s`, read from index `from`, begins with `prefix`.
pub fn has_prefix_exact(s: &Vec<char>, from: usize, prefix: &str) -> (r: bool)
    requires
        from <= s@.len(),
    ensures
        r == starts_with_exact(s@.skip(from as int), prefix@),
{
    let n: usize = prefix.unicode_len();
    if s.len() - from < n {
        return false;
    }
    let mut i: usize = 0;
    while i < n
        invariant
            n == prefix@.len(),
            from + n <= s@.len() <= usize::MAX,
            i <= n,
            forall|j: int| 0 <= j < i ==> s@[from + j] == prefix@[j],
        decreases n - i,
    {
        if s[from + i] != prefix.get_char(i) {
            proof {
                let t = s@.skip(from as int).take(n as int);
                assert(t[i as int] == s@[from + i]);
            }
            return false;
        }
        i += 1;
    }
    proof {
        assert(s@.skip(from as int).take(n as int) =~= prefix@);
    }
    true
}

fn move_article(s: &Vec<char>, from: usize, to: usize, n: usize) -> (r: String)
    requires
        from <= to <= s@.len(),
        1 <= n <= to - from,
    ensures
        r@ == article_moved(s@.subrange(from as int, to as int), n as int),
{
    let mut out = String::new();
    push_range(&mut out, s, from + n, to);
    out.push(',');
    out.push(' ');
    push_range(&mut out, s, from, from + n - 1);
    proof {
        let t = s@.subrange(from as int, to as int);
        assert(t.skip(n as int) =~= s@.subrange(from + n, to as int));
        assert(t.take(n - 1) =~= s@.subrange(from as int, from + n - 1));
        assert(out@ =~= article_moved(t, n as int));
    }
    out
}

/// The sort form of a title as the catalog's triggers compute it.
pub open spec fn title_sort_of(t: Seq<char>) -> Seq<char> {
    if starts_with_folded(t, "the "@) {
        article_moved(t, 4)
    } else if starts_with_folded(t, "a "@) {
        article_moved(t, 2)
    } else if starts_with_folded(t, "an "@) {
        article_moved(t, 3)
    } else if starts_with_folded(t, "le "@) {
        article_moved(t, 3)
    } else if starts_with_folded(t, "la "@) {
        article_moved(t, 3)
    } else if starts_with_folded(t, "les "@) {
        article_moved(t, 4)
    } else if starts_with_folded(t, "el "@) {
        article_moved(t, 3)
    } else if starts_with_folded(t, "los "@) {
        article_moved(t, 4)
    } else if starts_with_folded(t, "las "@) {
        article_moved(t, 4)
    } else {
        t
    }
}

fn whole(s: &Vec<char>, from: usize, to: usize) -> (r: String)
    requires
        from <= to <= s@.len(),
    ensures
        r@ == s@.subrange(from as int, to as int),
{
    let mut out = String::new();
    push_range(&mut out, s, from, to);
    out
}

/// Moves a leading article, in any letter case, behind the rest of the title:
/// "The Great Gatsby" becomes "Great Gatsby, The". A title that begins with
/// no article of the list comes back unchanged.
pub fn title_sort_logic(title: &str) -> (r: String)
    ensures
        r@ == title_sort_of(title@),
{
    let s = chars_of(title);
    let n: usize = s.len();
    proof {
        reveal_strlit("the ");
        reveal_strlit("a ");
        reveal_strlit("an ");
        reveal_strlit("le ");
        reveal_strlit("la ");
        reveal_strlit("les ");
        reveal_strlit("el ");
        reveal_strlit("los ");
        reveal_strlit("las ");
        assert(s@.subrange(0, n as int) =~= s@);
    }
    if has_prefix_folded(&s, "the ") {
        move_article(&s, 0, n, 4)
    } else if has_prefix_folded(&s, "a ") {
        move_article(&s, 0, n, 2)
    } else if has_prefix_folded(&s, "an ") {
        move_article(&s, 0, n, 3)
    } else if has_prefix_folded(&s, "le ") {
        move_article(&s, 0, n, 3)
    } else if has_prefix_folded(&s, "la ") {
        move_article(&s, 0, n, 3)
    } else if has_prefix_folded(&s, "les ") {
        move_article(&s, 0, n, 4)
    } else if has_prefix_folded(&s, "el ") {
        move_article(&s, 0, n, 3)
    } else if has_prefix_folded(&s, "los ") {
        move_article(&s, 0, n, 4)
    } else if has_prefix_folded(&s, "las ") {
        move_article(&s, 0, n, 4)
    } else {
        whole(&s, 0, n)
    }
}


/// Finds the bounds of `s` without its leading and trailing white space.
pub fn trim_bounds(s: &Vec<char>) -> (r: (usize, usize))
    ensures
        r.0 <= r.1 <= s@.len(),
        s@.subrange(r.0 as int, r.1 as int) == trimmed(s@),
{
    let n: usize = s.len();
    let mut a: usize = 0;
    proof {
        assert(s@.skip(0) =~= s@);
    }
    while a < n && is_space_char(s[a])
        invariant
            a <= n == s@.len(),
            trim_start(s@) == trim_start(s@.skip(a as int)),
        decreases n - a,
    {
        proof {
            assert(s@.skip(a as int).skip(1) =~= s@.skip(a + 1));
        }
        a += 1;
    }
    let mut b: usize = n;
    proof {
        assert(s@.skip(a as int) =~= s@.subrange(a as int, n as int));
    }
    while b > a && is_space_char(s[b - 1])
        invariant
            a <= b <= n == s@.len(),
            trimmed(s@) == trim_end(s@.subrange(a as int, b as int)),
        decreases b,
    {
        proof {
            assert(s@.subrange(a as int, b as int).drop_last() =~= s@.subrange(
                a as int,
                b - 1,
            ));
        }
        b -= 1;
    }
    (a, b)
}

/// The characters of `text` without its leading and trailing white space.
pub fn trimmed_chars(text: &str) -> (r: Vec<char>)
    ensures
        r@ == trimmed(text@),
{
    let s = chars_of(text);
    let (a, b) = trim_bounds(&s);
    let mut out: Vec<char> = Vec::new();
    let mut i: usize = a;
    while i < b
        invariant
            a <= i <= b <= s@.len(),
            out@ == s@.subrange(a as int, i as int),
        decreases b - i,
    {
        out.push(s[i]);
        proof {
            assert(out@ =~= s@.subrange(a as int, i + 1));
        }
        i += 1;
    }
    out
}

/// The sort form of a title as the catalog engine stores it: the trimmed
/// title, with a leading English article, in any letter case, moved behind a
/// comma. The article stays as the title spells it.
pub open spec fn stored_title_sort_of(title: Seq<char>) -> Seq<char> {
    let t = trimmed(title);
    if starts_with_folded(t, "the "@) {
        article_moved(t, 4)
    } else if starts_with_folded(t, "a "@) {
        article_moved(t, 2)
    } else if starts_with_folded(t, "an "@) {
        article_moved(t, 3)
    } else {
        t
    }
}

/// The sort form of a title for a new book row: "The Great Gatsby" becomes
/// "Great Gatsby, The", and "the great gatsby" becomes "great gatsby, the".
pub fn get_title_sort(title: &str) -> (r: String)
    ensures
        r@ == stored_title_sort_of(title@),
{
    let t = trimmed_chars(title);
    let n: usize = t.len();
    proof {
        reveal_strlit("the ");
        reveal_strlit("a ");
        reveal_strlit("an ");
        assert(t@.subrange(0, n as int) =~= t@);
    }
    if has_prefix_folded(&t, "the ") {
        move_article(&t, 0, n, 4)
    } else if has_prefix_folded(&t, "a ") {
        move_article(&t, 0, n, 2)
    } else if has_prefix_folded(&t, "an ") {
        move_article(&t, 0, n, 3)
    } else {
        whole(&t, 0, n)
    }
}

/// The words of `s`: its maximal runs of characters that are not white space.
pub open spec fn tokens(s: Seq<char>) -> Seq<Seq<char>>
    decreases s.len(),
{
    if s.len() == 0 {
        Seq::empty()
    } else {
        let before = tokens(s.drop_last());
        let c = s.last();
        if is_space(c) {
            before
        } else if s.len() >= 2 && !is_space(s[s.len() - 2]) && before.len() > 0 {
            before.update(before.len() - 1, before.last().push(c))
        } else {
            before.push(seq![c])
        }
    }
}

/// `parts` written one after another with a single space between them.
pub open spec fn joined(parts: Seq<Seq<char>>) -> Seq<char>
    decreases parts.len(),
{
    if parts.len() == 0 {
        Seq::empty()
    } else if parts.len() == 1 {
        parts[0]
    } else {
        joined(parts.drop_last()) + seq![' '] + parts.last()
    }
}

/// True when `word` is `lower` in some mix of upper and lower case.
pub open spec fn is_word(word: Seq<char>, lower: Seq<char>) -> bool {
    word.len() == lower.len() && starts_with_folded(word, lower)
}

/// The name suffixes that stay with the surname.
pub open spec fn is_name_suffix(word: Seq<char>) -> bool {
    is_word(word, "jr."@) || is_word(word, "sr."@) || is_word(word, "ii"@) || is_word(
        word,
        "iii"@,
    ) || is_word(word, "iv"@) || is_word(word, "jr"@) || is_word(word, "sr"@)
}

/// The sort form of an author's name: the surname first, then a suffix if
/// the name ends in one, then the given names, if there are any.
pub open spec fn author_sort_of(name: Seq<char>) -> Seq<char> {
    let t = tokens(name);
    let n = t.len() as int;
    if n <= 1 {
        trimmed(name)
    } else if n == 2 && is_name_suffix(t[1]) {
        t[0] + seq![',', ' '] + t[1]
    } else if is_name_suffix(t[n - 1]) {
        t[n - 2] + seq![',', ' '] + t[n - 1] + seq![',', ' '] + joined(t.take(n - 2))
    } else {
        t[n - 1] + seq![',', ' '] + joined(t.take(n - 1))
    }
}

/// The characters of each word.
pub open spec fn views(v: Seq<Vec<char>>) -> Seq<Seq<char>> {
    Seq::new(v.len(), |i: int| v[i]@)
}

fn split_words(s: &Vec<char>) -> (r: Vec<Vec<char>>)
    ensures
        views(r@) == tokens(s@),
{
    let n: usize = s.len();
    let mut out: Vec<Vec<char>> = Vec::new();
    let mut cur: Vec<char> = Vec::new();
    let mut i: usize = 0;
    proof {
        assert(views(out@) =~= Seq::<Seq<char>>::empty());
    }
    while i < n
        invariant
            i <= n == s@.len(),
            cur@.len() > 0 <==> (i > 0 && !is_space(s@[i - 1])),
            tokens(s@.take(i as int)) == if cur@.len() > 0 {
                views(out@).push(cur@)
            } else {
                views(out@)
            },
        decreases n - i,
    {
        let c = s[i];
        proof {
            assert(s@.take(i + 1).drop_last() =~= s@.take(i as int));
            assert(s@.take(i + 1).last() == c);
            if i > 0 {
                assert(s@.take(i + 1)[i - 1] == s@[i - 1]);
            }
        }
        if is_space_char(c) {
            if cur.len() > 0 {
                let ghost before = views(out@);
                let ghost word = cur@;
                out.push(cur);
                cur = Vec::new();
                proof {
                    assert(views(out@) =~= before.push(word));
                }
            }
        } else {
            let ghost before = tokens(s@.take(i as int));
            let ghost word = cur@;
            cur.push(c);
            proof {
                if word.len() > 0 {
                    assert(before.update(before.len() - 1, before.last().push(c)) =~= views(
                        out@,
                    ).push(cur@));
                } else {
                    assert(cur@ =~= seq![c]);
                }
            }
        }
        i += 1;
    }
    proof {
        assert(s@.take(n as int) =~= s@);
    }
    if cur.len() > 0 {
        let ghost before = views(out@);
        let ghost word = cur@;
        out.push(cur);
        proof {
            assert(views(out@) =~= before.push(word));
        }
    }
    out
}

/// Whether `word` is `lower` in some mix of upper and lower case.
pub fn is_word_of(word: &Vec<char>, lower: &str) -> (r: bool)
    ensures
        r == is_word(word@, lower@),
{
    let n: usize = lower.unicode_len();
    word.len() == n && has_prefix_folded(word, lower)
}

fn push_joined(out: &mut String, parts: &Vec<Vec<char>>, count: usize)
    requires
        count <= parts@.len(),
    ensures
        final(out)@ == old(out)@ + joined(views(parts@).take(count as int)),
{
    let mut i: usize = 0;
    proof {
        assert(joined(views(parts@).take(0)) =~= Seq::<char>::empty());
        assert(out@ =~= old(out)@ + Seq::<char>::empty());
    }
    while i < count
        invariant
            i <= count <= parts@.len(),
            out@ == old(out)@ + joined(views(parts@).take(i as int)),
        decreases count - i,
    {
        let ghost before = out@;
        if i > 0 {
            out.push(' ');
        }
        let part = &parts[i];
        push_range(out, part, 0, part.len());
        proof {
            let now = views(parts@).take(i + 1);
            assert(now.drop_last() =~= views(parts@).take(i as int));
            assert(now.last() == part@);
            assert(part@.subrange(0, part@.len() as int) =~= part@);
            if i > 0 {
                assert(out@ =~= old(out)@ + joined(now));
            } else {
                assert(joined(views(parts@).take(0)) =~= Seq::<char>::empty());
                assert(out@ =~= old(out)@ + joined(now));
            }
        }
        i += 1;
    }
}

/// The sort form of an author's name: "F. Scott Fitzgerald" becomes
/// "Fitzgerald, F. Scott". A name of one word comes back trimmed.
pub fn get_author_sort(author: &str) -> (r: String)
    ensures
        r@ == author_sort_of(author@),
{
    let s = chars_of(author);
    let parts = split_words(&s);
    let n: usize = parts.len();
    if n <= 1 {
        let (a, b) = trim_bounds(&s);
        return whole(&s, a, b);
    }
    let last = &parts[n - 1];
    let mut out = String::new();
    proof {
        assert(views(parts@)[n - 1] == last@);
        assert(last@.subrange(0, last@.len() as int) =~= last@);
    }
    let with_suffix = is_word_of(last, "jr.") || is_word_of(last, "sr.") || is_word_of(last, "ii")
        || is_word_of(last, "iii") || is_word_of(last, "iv") || is_word_of(last, "jr")
        || is_word_of(last, "sr");
    if with_suffix {
        let surname = &parts[n - 2];
        proof {
            assert(views(parts@)[n - 2] == surname@);
            assert(surname@.subrange(0, surname@.len() as int) =~= surname@);
        }
        push_range(&mut out, surname, 0, surname.len());
        out.push(',');
        out.push(' ');
        push_range(&mut out, last, 0, last.len());
        if n > 2 {
            out.push(',');
            out.push(' ');
            push_joined(&mut out, &parts, n - 2);
        }
        proof {
            assert(out@ =~= author_sort_of(author@));
        }
    } else {
        push_range(&mut out, last, 0, last.len());
        out.push(',');
        out.push(' ');
        push_joined(&mut out, &parts, n - 1);
        proof {
            assert(out@ =~= author_sort_of(author@));
        }
    }
    out
}

/// The part of a language tag before its first `-` or `_`, in lower case.
pub open spec fn language_base(tag: Seq<char>) -> Seq<char>
    decreases tag.len(),
{
    if tag.len() == 0 || tag[0] == '-' || tag[0] == '_' {
        Seq::empty()
    } else {
        seq![fold_lower(tag[0])] + language_base(tag.skip(1))
    }
}

/// The three-letter codes that the catalog accepts.
pub open spec fn is_known_language(base: Seq<char>) -> bool {
    base == "eng"@ || base == "fra"@ || base == "deu"@ || base == "spa"@ || base == "ita"@ || base == "jpn"@ || base == "zho"@ || base == "rus"@ || base == "ara"@ || base == "hin"@ || base == "por"@ || base == "ben"@ || base == "urd"@ || base == "nld"@ || base == "tur"@ || base == "vie"@ || base == "tel"@ || base == "mar"@ || base == "tam"@ || base == "kor"@ || base == "fas"@ || base == "tha"@ || base == "pol"@ || base == "ukr"@ || base == "ron"@ || base == "mal"@ || base == "hun"@ || base == "ces"@ || base == "ell"@ || base == "swe"@ || base == "bul"@ || base == "dan"@ || base == "fin"@ || base == "nor"@ || base == "slk"@ || base == "cat"@ || base == "hrv"@ || base == "heb"@ || base == "lit"@ || base == "slv"@ || base == "est"@ || base == "lav"@ || base == "fil"@ || base == "mkd"@ || base == "gle"@ || base == "hye"@ || base == "lat"@ || base == "cym"@ || base == "eus"@ || base == "kat"@ || base == "aze"@ || base == "swa"@ || base == "afr"@ || base == "glg"@ || base == "alb"@ || base == "bel"@ || base == "kan"@ || base == "yue"@ || base == "cmn"@
}

/// The catalog's code for a language tag base: a two-letter code of the table
/// gives its three-letter code, a known three-letter code stands, and
/// anything else is undetermined.
pub open spec fn language_code_of(base: Seq<char>) -> Seq<char> {
    if base == "en"@ {
        "eng"@
    } else     if base == "fr"@ {
        "fra"@
    } else     if base == "es"@ {
        "spa"@
    } else     if base == "de"@ {
        "deu"@
    } else     if base == "it"@ {
        "ita"@
    } else     if base == "ja"@ {
        "jpn"@
    } else     if base == "zh"@ {
        "zho"@
    } else     if base == "ru"@ {
        "rus"@
    } else     if base == "ar"@ {
        "ara"@
    } else     if base == "hi"@ {
        "hin"@
    } else     if base == "pt"@ {
        "por"@
    } else     if base == "nl"@ {
        "nld"@
    } else     if base == "pl"@ {
        "pol"@
    } else     if base == "ko"@ {
        "kor"@
    } else  if is_known_language(base) {
        base
    } else {
        "und"@
    }
}

/// Whether `v` holds exactly the characters of `text`.
pub fn same_text(v: &Vec<char>, text: &str) -> (r: bool)
    ensures
        r == (v@ == text@),
{
    let n: usize = text.unicode_len();
    if v.len() != n {
        return false;
    }
    let mut i: usize = 0;
    while i < n
        invariant
            i <= n == text@.len(),
            n == v@.len(),
            forall|j: int| 0 <= j < i ==> v@[j] == text@[j],
        decreases n - i,
    {
        if v[i] != text.get_char(i) {
            return false;
        }
        i += 1;
    }
    proof {
        assert(v@ =~= text@);
    }
    true
}

fn known_language(base: &Vec<char>) -> (r: bool)
    ensures
        r == is_known_language(base@),
{
    same_text(base, "eng") || same_text(base, "fra") || same_text(base, "deu") || same_text(base, "spa") || same_text(base, "ita") || same_text(base, "jpn") || same_text(base, "zho") || same_text(base, "rus") || same_text(base, "ara") || same_text(base, "hin") || same_text(base, "por") || same_text(base, "ben") || same_text(base, "urd") || same_text(base, "nld") || same_text(base, "tur") || same_text(base, "vie") || same_text(base, "tel") || same_text(base, "mar") || same_text(base, "tam") || same_text(base, "kor") || same_text(base, "fas") || same_text(base, "tha") || same_text(base, "pol") || same_text(base, "ukr") || same_text(base, "ron") || same_text(base, "mal") || same_text(base, "hun") || same_text(base, "ces") || same_text(base, "ell") || same_text(base, "swe") || same_text(base, "bul") || same_text(base, "dan") || same_text(base, "fin") || same_text(base, "nor") || same_text(base, "slk") || same_text(base, "cat") || same_text(base, "hrv") || same_text(base, "heb") || same_text(base, "lit") || same_text(base, "slv") || same_text(base, "est") || same_text(base, "lav") || same_text(base, "fil") || same_text(base, "mkd") || same_text(base, "gle") || same_text(base, "hye") || same_text(base, "lat") || same_text(base, "cym") || same_text(base, "eus") || same_text(base, "kat") || same_text(base, "aze") || same_text(base, "swa") || same_text(base, "afr") || same_text(base, "glg") || same_text(base, "alb") || same_text(base, "bel") || same_text(base, "kan") || same_text(base, "yue") || same_text(base, "cmn")
}

/// Brings a language tag to the catalog's three-letter code: the tag is
/// trimmed and lower-cased, a region or variant after `-` or `_` is dropped,
/// and a code that the catalog does not know becomes "und". Total: every
/// tag has a code.
pub fn normalize_language(raw: &str) -> (r: String)
    ensures
        r@ == language_code_of(language_base(trimmed(raw@))),
{
    let s = chars_of(raw);
    let (a, b) = trim_bounds(&s);
    let ghost t = s@.subrange(a as int, b as int);
    let mut base: Vec<char> = Vec::new();
    let mut i: usize = a;
    proof {
        assert(t.skip(0) =~= t);
        assert(base@ + language_base(t) =~= language_base(t));
    }
    while i < b && s[i] != '-' && s[i] != '_'
        invariant
            a <= i <= b <= s@.len(),
            t == s@.subrange(a as int, b as int),
            language_base(t) == base@ + language_base(t.skip(i - a)),
        decreases b - i,
    {
        let ghost rest = t.skip(i - a);
        let ghost before = base@;
        base.push(fold_lower_char(s[i]));
        proof {
            assert(rest[0] == s@[i as int]);
            assert(rest.skip(1) =~= t.skip(i + 1 - a));
            assert(before + (seq![fold_lower(rest[0])] + language_base(rest.skip(1))) =~= base@
                + language_base(rest.skip(1)));
        }
        i += 1;
    }
    proof {
        let rest = t.skip(i - a);
        if i < b {
            assert(rest[0] == s@[i as int]);
        }
        assert(language_base(rest) =~= Seq::<char>::empty());
        assert(base@ + Seq::<char>::empty() =~= base@);
    }
    if same_text(&base, "en") {
        String::from_str("eng")
    } else     if same_text(&base, "fr") {
        String::from_str("fra")
    } else     if same_text(&base, "es") {
        String::from_str("spa")
    } else     if same_text(&base, "de") {
        String::from_str("deu")
    } else     if same_text(&base, "it") {
        String::from_str("ita")
    } else     if same_text(&base, "ja") {
        String::from_str("jpn")
    } else     if same_text(&base, "zh") {
        String::from_str("zho")
    } else     if same_text(&base, "ru") {
        String::from_str("rus")
    } else     if same_text(&base, "ar") {
        String::from_str("ara")
    } else     if same_text(&base, "hi") {
        String::from_str("hin")
    } else     if same_text(&base, "pt") {
        String::from_str("por")
    } else     if same_text(&base, "nl") {
        String::from_str("nld")
    } else     if same_text(&base, "pl") {
        String::from_str("pol")
    } else     if same_text(&base, "ko") {
        String::from_str("kor")
    } else  if known_language(&base) {
        whole(&base, 0, base.len())
    } else {
        String::from_str("und")
    }
}

} // verus!
