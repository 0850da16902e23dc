//! Properties that tie the parser and the resolver together.
use vstd::prelude::*;

use crate::config::{
    key_matches, mapping_program, parse_config, parse_line, resolve, strip_comment,
    lines_view, Config, KeyView, MappingView,
};
use crate::error::{Error, ErrorView};
use crate::mime::MimeView;
use crate::text::{
    all_key_chars, all_space, ascii_fold, count_before, eq_ignore_case, is_key_char, is_space,
    is_word, lemma_count_before, lemma_count_before_absent, lemma_trim_empty,
    lemma_words_after_space, lemma_words_after_word, lemma_words_of_space, trim, words,
};

verus! {

/// `s` holds no `c`.
pub open spec fn lacks(s: Seq<char>, c: char) -> bool {
    forall|i: int| 0 <= i < s.len() ==> #[trigger] s[i] != c
}

proof fn lemma_three_words(
    kw: Seq<char>,
    sp1: Seq<char>,
    a: Seq<char>,
    sp2: Seq<char>,
    b: Seq<char>,
)
    requires
        is_word(kw),
        is_word(a),
        is_word(b),
        all_space(sp1),
        all_space(sp2),
        sp1.len() > 0,
        sp2.len() > 0,
    ensures
        words(kw + sp1 + a + sp2 + b) == seq![kw, a, b],
{
    let tail2 = sp2 + b;
    let tail1 = sp1 + (a + tail2);
    assert(kw + sp1 + a + sp2 + b =~= kw + tail1);
    assert(tail1[0] == sp1[0]);
    lemma_words_after_word(kw, tail1);
    lemma_words_after_space(sp1, a + tail2);
    assert(tail2[0] == sp2[0]);
    lemma_words_after_word(a, tail2);
    lemma_words_after_space(sp2, b);
    lemma_words_after_word(b, seq![]);
    assert(b + seq![] =~= b);
    assert(words(seq![]) == Seq::<Seq<char>>::empty());
    assert(seq![kw] + (seq![a] + (seq![b] + Seq::<Seq<char>>::empty())) =~= seq![kw, a, b]);
}

proof fn lemma_no_comment(
    kw: Seq<char>,
    sp1: Seq<char>,
    a: Seq<char>,
    sp2: Seq<char>,
    b: Seq<char>,
)
    requires
        lacks(kw, '#'),
        lacks(a, '#'),
        lacks(b, '#'),
        all_space(sp1),
        all_space(sp2),
    ensures
        strip_comment(kw + sp1 + a + sp2 + b) == kw + sp1 + a + sp2 + b,
{
    let line = kw + sp1 + a + sp2 + b;
    assert forall|i: int| 0 <= i < line.len() implies line[i] != '#' by {
        if i < kw.len() {
            assert(line[i] == kw[i]);
        } else if i < kw.len() + sp1.len() {
            assert(line[i] == sp1[i - kw.len()]);
            assert(is_space(sp1[i - kw.len()]));
        } else if i < kw.len() + sp1.len() + a.len() {
            assert(line[i] == a[i - kw.len() - sp1.len()]);
        } else if i < kw.len() + sp1.len() + a.len() + sp2.len() {
            assert(line[i] == sp2[i - kw.len() - sp1.len() - a.len()]);
            assert(is_space(sp2[i - kw.len() - sp1.len() - a.len()]));
        } else {
            assert(line[i] == b[i - kw.len() - sp1.len() - a.len() - sp2.len()]);
        }
    }
    lemma_count_before_absent(line, '#');
    assert(line.take(line.len() as int) =~= line);
}

/// A line `ext X P`, whitespace between its three words and no `#` in
/// them, parses to exactly the rule that maps extension `X` to program `P`.
pub proof fn law_ext_line(sp1: Seq<char>, x: Seq<char>, sp2: Seq<char>, prog: Seq<char>, n: int)
    requires
        is_word(x),
        is_word(prog),
        lacks(x, '#'),
        lacks(prog, '#'),
        all_space(sp1),
        all_space(sp2),
        sp1.len() > 0,
        sp2.len() > 0,
    ensures
        parse_line(seq!['e', 'x', 't'] + sp1 + x + sp2 + prog, n) == Ok::<
            Option<MappingView>,
            ErrorView,
        >(Some(MappingView::Extension { extension: x, program: prog })),
{
    let kw = seq!['e', 'x', 't'];
    assert(is_word(kw));
    assert(lacks(kw, '#'));
    lemma_no_comment(kw, sp1, x, sp2, prog);
    lemma_three_words(kw, sp1, x, sp2, prog);
}

/// A line `mime A/B P`, whitespace between its three words, `A` and `B`
/// non-empty and made of key characters, and no `#` in `P`, parses to
/// exactly the rule that maps supertype `A` and subtype `B` to program `P`.
pub proof fn law_mime_line(
    sp1: Seq<char>,
    sup: Seq<char>,
    sub: Seq<char>,
    sp2: Seq<char>,
    prog: Seq<char>,
    n: int,
)
    requires
        sup.len() > 0,
        sub.len() > 0,
        all_key_chars(sup),
        all_key_chars(sub),
        is_word(prog),
        lacks(prog, '#'),
        all_space(sp1),
        all_space(sp2),
        sp1.len() > 0,
        sp2.len() > 0,
    ensures
        parse_line(seq!['m', 'i', 'm', 'e'] + sp1 + (sup + seq!['/'] + sub) + sp2 + prog, n)
            == Ok::<Option<MappingView>, ErrorView>(
            Some(
                MappingView::Mime {
                    key: KeyView { supertype: sup, subtype: Some(sub) },
                    program: prog,
                },
            ),
        ),
{
    let kw = seq!['m', 'i', 'm', 'e'];
    let key = sup + seq!['/'] + sub;
    assert(is_word(kw));
    assert(lacks(kw, '#'));
    assert forall|i: int| 0 <= i < key.len() implies !is_space(#[trigger] key[i]) && key[i]
        != '#' by {
        if i < sup.len() {
            assert(key[i] == sup[i]);
            assert(is_key_char(sup[i]));
        } else if i > sup.len() {
            assert(key[i] == sub[i - sup.len() - 1]);
            assert(is_key_char(sub[i - sup.len() - 1]));
        }
    }
    assert(lacks(key, '#'));
    lemma_no_comment(kw, sp1, key, sp2, prog);
    lemma_three_words(kw, sp1, key, sp2, prog);
    assert forall|i: int| 0 <= i < sup.len() implies #[trigger] key[i] != '/' by {
        assert(key[i] == sup[i]);
        assert(is_key_char(sup[i]));
    }
    lemma_count_before(key, '/');
    assert(key[sup.len() as int] == '/');
    assert(count_before(key, '/') == sup.len()) by {
        if count_before(key, '/') < sup.len() {
            assert(key[count_before(key, '/') as int] != '/');
        }
    }
    assert(key.take(sup.len() as int) =~= sup);
    assert(key.skip(sup.len() + 1 as int) =~= sub);
    assert(is_key_char(sub[0]));
    assert(sub != seq!['*']);
}

/// A line that is blank once its comment is dropped and it is trimmed
/// gives no rule.
pub proof fn law_blank_line(line: Seq<char>, n: int)
    requires
        trim(strip_comment(line)).len() == 0,
    ensures
        parse_line(line, n) == Ok::<Option<MappingView>, ErrorView>(None),
{
    lemma_trim_empty(strip_comment(line));
    lemma_words_of_space(strip_comment(line));
}

/// A comment after a line changes nothing of the rule it gives.
pub proof fn law_trailing_comment(line: Seq<char>, comment: Seq<char>, n: int)
    requires
        lacks(line, '#'),
    ensures
        strip_comment(line + seq!['#'] + comment) == line,
        parse_line(line + seq!['#'] + comment, n) is Ok <==> parse_line(line, n) is Ok,
        parse_line(line + seq!['#'] + comment, n) is Ok ==> parse_line(
            line + seq!['#'] + comment,
            n,
        ) == parse_line(line, n),
{
    let full = line + seq!['#'] + comment;
    lemma_count_before(full, '#');
    assert(full[line.len() as int] == '#');
    assert(count_before(full, '#') == line.len()) by {
        if count_before(full, '#') < line.len() {
            assert(full[count_before(full, '#') as int] == line[count_before(full, '#') as int]);
        }
    }
    assert(full.take(line.len() as int) =~= line);
    lemma_count_before_absent(line, '#');
    assert(line.take(line.len() as int) =~= line);
}

/// The first rule that applies decides: rules after it are never
/// consulted, however well they would fit.
pub proof fn law_first_match_wins(
    rules: Seq<MappingView>,
    i: int,
    m: MimeView,
    ext: Option<Seq<char>>,
)
    requires
        0 <= i < rules.len(),
        mapping_program(rules[i], m, ext) is Some,
        forall|j: int| 0 <= j < i ==> mapping_program(#[trigger] rules[j], m, ext) is None,
    ensures
        resolve(rules, m, ext) == mapping_program(rules[i], m, ext),
    decreases i,
{
    if i > 0 {
        assert forall|j: int| 0 <= j < i - 1 implies mapping_program(
            #[trigger] rules.drop_first()[j],
            m,
            ext,
        ) is None by {
            assert(rules.drop_first()[j] == rules[j + 1]);
        }
        assert(mapping_program(rules[0], m, ext) is None);
        law_first_match_wins(rules.drop_first(), i - 1, m, ext);
    }
}

/// A wildcard key matches every type whose supertype equals its own but
/// for case, whatever the subtype.
pub proof fn law_wildcard(sup: Seq<char>, m: MimeView)
    ensures
        key_matches(KeyView { supertype: sup, subtype: None }, m) == eq_ignore_case(
            sup,
            m.supertype,
        ),
{
}

proof fn lemma_eq_ignore_case_trans(a: Seq<char>, b: Seq<char>, c: Seq<char>)
    requires
        eq_ignore_case(b, c),
    ensures
        eq_ignore_case(a, b) == eq_ignore_case(a, c),
{
    if eq_ignore_case(a, b) {
        assert forall|i: int| 0 <= i < a.len() implies ascii_fold(#[trigger] a[i]) == ascii_fold(
            c[i],
        ) by {
            assert(ascii_fold(b[i]) == ascii_fold(c[i]));
        }
    }
    if eq_ignore_case(a, c) {
        assert forall|i: int| 0 <= i < a.len() implies ascii_fold(#[trigger] a[i]) == ascii_fold(
            b[i],
        ) by {
            assert(ascii_fold(b[i]) == ascii_fold(c[i]));
        }
    }
}

/// Matching ignores case: two detected types that differ only in the case
/// of ASCII letters match the same keys.
pub proof fn law_case_insensitive(k: KeyView, m1: MimeView, m2: MimeView)
    requires
        eq_ignore_case(m1.supertype, m2.supertype),
        eq_ignore_case(m1.subtype, m2.subtype),
    ensures
        key_matches(k, m1) == key_matches(k, m2),
{
    lemma_eq_ignore_case_trans(k.supertype, m1.supertype, m2.supertype);
    if let Some(sub) = k.subtype {
        lemma_eq_ignore_case_trans(sub, m1.subtype, m2.subtype);
    }
}

/// Extensions compare exactly: a rule of extension applies only to that
/// very extension, so `TXT` is not `txt`.
pub proof fn law_extension_exact(
    extension: Seq<char>,
    program: Seq<char>,
    m: MimeView,
    ext: Option<Seq<char>>,
)
    ensures
        mapping_program(MappingView::Extension { extension, program }, m, ext) is Some <==> ext
            == Some(extension),
{
}

/// The outcome of `Config::parse` on `lines`, as its contract states it.
pub open spec fn parsed_from(lines: Seq<Option<String>>, r: Result<Config, Error>) -> bool {
    match r {
        Ok(c) => parse_config(lines_view(lines)) == Ok::<Seq<MappingView>, ErrorView>(c@),
        Err(e) => parse_config(lines_view(lines)) == Err::<Seq<MappingView>, ErrorView>(e@),
    }
}

/// Parsing the same lines twice gives the same rules, in the same order,
/// and so the same program for every file; or twice the same failure.
pub proof fn law_parse_twice(
    lines: Seq<Option<String>>,
    first: Result<Config, Error>,
    second: Result<Config, Error>,
)
    requires
        parsed_from(lines, first),
        parsed_from(lines, second),
    ensures
        first is Ok <==> second is Ok,
        first is Ok ==> first->Ok_0@ == second->Ok_0@,
        first is Ok ==> forall|m: MimeView, ext: Option<Seq<char>>|
            #[trigger] resolve(first->Ok_0@, m, ext) == resolve(second->Ok_0@, m, ext),
        first is Err ==> first->Err_0@ == second->Err_0@,
{
}

} // verus!
