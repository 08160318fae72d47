//! Answers from the OpenAI service: the cache of earlier answers, the
//! rewriting of a fresh answer, and the request sent for one.

use crate::config::{OpenAIConfig, ReplyConfig};
use crate::model::openai::question::Question;
use crate::random::random_index;
use crate::table::{
    get_after_set, lists_nonempty, table_append, table_get, table_set, ReplyTable, TableView,
};
use crate::text::{
    chars_of, contains, find, find_from, first_occurrence, has_substring, occurs_at, replace,
    replaced, starts_with, utf8_len, utf8_prefix_shorter_than,
};
use vstd::prelude::*;

verus! {

/// A list fit to stand in the cache: not empty, and no answer in it holds
/// a paragraph break.
pub open spec fn cached_list_ok(l: Seq<Seq<char>>) -> bool {
    &&& l.len() > 0
    &&& forall|j: int| 0 <= j < l.len() ==> !has_substring(#[trigger] l[j], paragraph_break())
}

/// Every list of the table is fit to stand in the cache.
pub open spec fn cache_ok(t: TableView) -> bool {
    forall|i: int| 0 <= i < t.len() ==> cached_list_ok(#[trigger] t[i].1)
}

proof fn lemma_get_ok(t: TableView, k: Seq<char>)
    requires
        cache_ok(t),
    ensures
        table_get(t, k) matches Some(l) ==> cached_list_ok(l),
    decreases t.len(),
{
    if t.len() > 0 && t[0].0 != k {
        assert forall|i: int| 0 <= i < t.drop_first().len() implies cached_list_ok(
            #[trigger] t.drop_first()[i].1,
        ) by {
            assert(t.drop_first()[i] == t[i + 1]);
        }
        lemma_get_ok(t.drop_first(), k);
    }
}

proof fn lemma_set_ok(t: TableView, k: Seq<char>, v: Seq<Seq<char>>)
    requires
        cache_ok(t),
        cached_list_ok(v),
    ensures
        cache_ok(table_set(t, k, v)),
    decreases t.len(),
{
    let s = table_set(t, k, v);
    if t.len() == 0 {
        assert(s[0] == (k, v));
    } else if t[0].0 == k {
        assert forall|i: int| 0 <= i < s.len() implies cached_list_ok(#[trigger] s[i].1) by {
            if i > 0 {
                assert(s[i] == t[i]);
            }
        }
    } else {
        assert forall|i: int| 0 <= i < t.drop_first().len() implies cached_list_ok(
            #[trigger] t.drop_first()[i].1,
        ) by {
            assert(t.drop_first()[i] == t[i + 1]);
        }
        lemma_set_ok(t.drop_first(), k, v);
        let r = table_set(t.drop_first(), k, v);
        assert forall|i: int| 0 <= i < s.len() implies cached_list_ok(#[trigger] s[i].1) by {
            if i > 0 {
                assert(s[i] == r[i - 1]);
            }
        }
    }
}

/// Adding an answer without a paragraph break to a table fit for the cache
/// keeps it fit.
pub proof fn append_keeps_cache_ok(t: TableView, q: Seq<char>, a: Seq<char>)
    requires
        cache_ok(t),
        !has_substring(a, paragraph_break()),
    ensures
        cache_ok(table_append(t, q, a)),
{
    lemma_get_ok(t, q);
    let old_list = match table_get(t, q) {
        Some(l) => l,
        None => Seq::<Seq<char>>::empty(),
    };
    let l = old_list.push(a);
    assert forall|j: int| 0 <= j < l.len() implies !has_substring(
        #[trigger] l[j],
        paragraph_break(),
    ) by {
        if j < old_list.len() {
            assert(l[j] == old_list[j]);
        }
    }
    lemma_set_ok(t, q, l);
}

/// The cache holds at least `n` answers to `q`.
pub open spec fn cache_hit(t: TableView, q: Seq<char>, n: usize) -> bool {
    table_get(t, q) matches Some(l) && l.len() >= n
}

/// Answers already given, by question: no question has an empty list, and
/// no answer holds a paragraph break.
pub struct ReplyCache {
    table: ReplyTable,
}

impl View for ReplyCache {
    type V = TableView;

    closed spec fn view(&self) -> TableView {
        self.table@
    }
}

impl ReplyCache {
    #[verifier::type_invariant]
    closed spec fn inv(self) -> bool {
        cache_ok(self.table@)
    }

    /// An empty cache.
    pub fn new() -> (c: ReplyCache)
        ensures
            c@ == Seq::<(Seq<char>, Seq<Seq<char>>)>::empty(),
    {
        ReplyCache { table: ReplyTable::new() }
    }

    /// The answers cached for `question`: never an empty list, and none with
    /// a paragraph break.
    pub fn get(&self, question: &str) -> (r: Option<&Vec<String>>)
        ensures
            r is None <==> table_get(self@, question@) is None,
            r matches Some(v) ==> table_get(self@, question@) == Some(v.deep_view())
                && cached_list_ok(v.deep_view()),
    {
        proof {
            use_type_invariant(self);
            lemma_get_ok(self@, question@);
        }
        self.table.get(question)
    }

    /// Caches `reply`, which holds no paragraph break, as one more answer to
    /// `question`.
    pub fn add_reply(&mut self, question: &str, reply: String)
        requires
            !has_substring(reply@, paragraph_break()),
        ensures
            final(self)@ == table_append(old(self)@, question@, reply@),
    {
        proof {
            use_type_invariant(&*self);
            append_keeps_cache_ok(self@, question@, reply@);
        }
        let mut table = ReplyTable::new();
        std::mem::swap(&mut table, &mut self.table);
        table.append(String::from_str(question), reply);
        self.table = table;
    }

    /// Answer number `pick` of those cached for `question`, where at least
    /// `cache_per_question` are cached.
    pub fn cached_answer_with(&self, question: &str, cache_per_question: usize, pick: usize) -> (r:
        Option<String>)
        requires
            cache_hit(self@, question@, cache_per_question) ==> pick < table_get(
                self@,
                question@,
            )->0.len(),
        ensures
            r is Some <==> cache_hit(self@, question@, cache_per_question),
            r matches Some(a) ==> a@ == table_get(self@, question@)->0[pick as int]
                && !has_substring(a@, paragraph_break()),
    {
        match self.get(question) {
            Some(v) => {
                if v.len() >= cache_per_question {
                    assert(v.deep_view()[pick as int] == v@[pick as int]@);
                    Some(v[pick].clone())
                } else {
                    None
                }
            },
            None => None,
        }
    }

    /// One of the answers cached for `question`, drawn at random, where at
    /// least `cache_per_question` are cached.
    pub fn cached_answer(&self, question: &str, cache_per_question: usize) -> (r: Option<String>)
        ensures
            r is Some <==> cache_hit(self@, question@, cache_per_question),
            r matches Some(a) ==> table_get(self@, question@)->0.contains(a@) && !has_substring(
                a@,
                paragraph_break(),
            ),
    {
        match self.get(question) {
            Some(v) => {
                if v.len() >= cache_per_question {
                    let i: usize = random_index(v.len());
                    let a = v[i].clone();
                    assert(v.deep_view()[i as int] == v@[i as int]@);
                    assert(table_get(self@, question@)->0[i as int] == a@);
                    Some(a)
                } else {
                    None
                }
            },
            None => None,
        }
    }
}

/// Reading the cache after caching an answer: the question's list has the
/// answer at its end, and every other question's list is unchanged.
pub proof fn cache_read_after_write(t: TableView, q: Seq<char>, a: Seq<char>, q2: Seq<char>)
    ensures
        table_get(table_append(t, q, a), q2) == (if q2 == q {
            Some(
                match table_get(t, q) {
                    Some(l) => l,
                    None => Seq::<Seq<char>>::empty(),
                }.push(a),
            )
        } else {
            table_get(t, q2)
        }),
{
    let old_list = match table_get(t, q) {
        Some(l) => l,
        None => Seq::<Seq<char>>::empty(),
    };
    get_after_set(t, q, old_list.push(a), q2);
}

/// Once a question has `n - 1` cached answers, caching one more makes the
/// cache serve that question whenever `n` answers are asked for.
pub proof fn cache_serves_after_enough(t: TableView, q: Seq<char>, a: Seq<char>, n: usize)
    requires
        n <= 1 + match table_get(t, q) {
            Some(l) => l.len(),
            None => 0,
        },
    ensures
        cache_hit(table_append(t, q, a), q, n),
{
    cache_read_after_write(t, q, a, q);
}


/// Whether `reply` holds one of the blacklisted words.
pub open spec fn blank_by(reply: Seq<char>, blacklist: Seq<Seq<char>>) -> bool {
    exists|i: int| 0 <= i < blacklist.len() && has_substring(reply, #[trigger] blacklist[i])
}

/// Whether `reply` holds one of the words of `blacklist`.
pub fn is_blacklisted(reply: &str, blacklist: &Vec<String>) -> (b: bool)
    ensures
        b == blank_by(reply@, blacklist.deep_view()),
{
    let n: usize = blacklist.len();
    let mut i: usize = 0;
    while i < n
        invariant
            n == blacklist@.len(),
            i <= n,
            forall|j: int| 0 <= j < i ==> !has_substring(reply@, #[trigger] blacklist.deep_view()[j]),
        decreases n - i,
    {
        if contains(reply, blacklist[i].as_str()) {
            assert(has_substring(reply@, blacklist.deep_view()[i as int]));
            return true;
        }
        i = i + 1;
    }
    false
}

/// Each pick chooses one of the replacements of its rule.
pub open spec fn picks_fit(rules: TableView, picks: Seq<usize>) -> bool {
    &&& picks.len() == rules.len()
    &&& forall|i: int| 0 <= i < picks.len() ==> #[trigger] picks[i] < rules[i].1.len()
}

/// `reply` rewritten by the rules in turn: every occurrence of a rule's key
/// replaced by the replacement that the rule's pick chooses.
pub open spec fn rewritten(reply: Seq<char>, rules: TableView, picks: Seq<usize>) -> Seq<char>
    decreases rules.len(),
{
    if rules.len() == 0 || picks.len() == 0 {
        reply
    } else {
        rewritten(
            replaced(reply, rules[0].0, rules[0].1[picks[0] as int]),
            rules.drop_first(),
            picks.drop_first(),
        )
    }
}

/// Rewrites `reply` by the rules of `rules`, each with the replacement that
/// `picks` chooses for it.
pub fn rewrite(reply: &str, rules: &ReplyTable, picks: &Vec<usize>) -> (r: String)
    requires
        picks_fit(rules@, picks@),
    ensures
        r@ == rewritten(reply@, rules@, picks@),
{
    let n: usize = rules.len();
    let mut r = String::from_str(reply);
    let mut i: usize = 0;
    assert(rules@.skip(0) =~= rules@);
    assert(picks@.skip(0) =~= picks@);
    while i < n
        invariant
            n == rules@.len(),
            picks_fit(rules@, picks@),
            i <= n,
            rewritten(reply@, rules@, picks@) == rewritten(
                r@,
                rules@.skip(i as int),
                picks@.skip(i as int),
            ),
        decreases n - i,
    {
        let values = rules.values_at(i);
        let p: usize = picks[i];
        assert(p < rules@[i as int].1.len());
        let next = replace(r.as_str(), rules.key_at(i).as_str(), values[p].as_str());
        proof {
            assert(rules@.skip(i as int)[0] == rules@[i as int]);
            assert(picks@.skip(i as int)[0] == picks@[i as int]);
            assert(rules@.skip(i as int).drop_first() =~= rules@.skip(i + 1));
            assert(picks@.skip(i as int).drop_first() =~= picks@.skip(i + 1));
            assert(values.deep_view()[p as int] == values@[p as int]@);
        }
        r = next;
        i = i + 1;
    }
    proof {
        assert(rules@.skip(n as int).len() == 0);
    }
    r
}

/// Draws, for each rule, one of its replacements.
pub fn draw_picks(rules: &ReplyTable) -> (picks: Vec<usize>)
    requires
        lists_nonempty(rules@),
    ensures
        picks_fit(rules@, picks@),
{
    let n: usize = rules.len();
    let mut picks: Vec<usize> = Vec::new();
    let mut i: usize = 0;
    while i < n
        invariant
            n == rules@.len(),
            lists_nonempty(rules@),
            i <= n,
            picks@.len() == i,
            forall|j: int| 0 <= j < i ==> #[trigger] picks@[j] < rules@[j].1.len(),
        decreases n - i,
    {
        let len: usize = rules.values_at(i).len();
        assert(rules@[i as int].1.len() > 0);
        picks.push(random_index(len));
        i = i + 1;
    }
    picks
}

/// The paragraph break `"\n\n"`.
pub open spec fn paragraph_break() -> Seq<char> {
    seq!['\n', '\n']
}

/// Where `reply` has its first paragraph break, if that break starts within
/// the first 100 bytes.
pub open spec fn early_break(reply: Seq<char>) -> Option<int> {
    match first_occurrence(reply, paragraph_break()) {
        Some(k) => if utf8_len(reply.take(k)) < 100 {
            Some(k)
        } else {
            None
        },
        None => None,
    }
}

/// The reply that is sent, and whether it is cached: where the reply has an
/// early paragraph break, what follows the break, with its paragraph breaks
/// turned into carriage returns, is sent and cached; else the reply is sent
/// as it is and not cached.
pub open spec fn finished(reply: Seq<char>) -> (Seq<char>, bool) {
    match early_break(reply) {
        Some(k) => (replaced(reply.skip(k + 2), paragraph_break(), seq!['\r']), true),
        None => (reply, false),
    }
}

/// Characters `j` and `j + 1` of `x` are both line feeds.
pub open spec fn break_at(x: Seq<char>, j: int) -> bool {
    x[j] == '\n' && x[j + 1] == '\n'
}

/// `x` holds no two line feeds in a row.
pub open spec fn break_free(x: Seq<char>) -> bool {
    forall|j: int| 0 <= j < x.len() - 1 ==> !#[trigger] break_at(x, j)
}

proof fn lemma_collapse_first(t: Seq<char>)
    requires
        t.len() > 0,
        t[0] != '\n',
    ensures
        replaced(t, paragraph_break(), seq!['\r']).len() > 0,
        replaced(t, paragraph_break(), seq!['\r'])[0] == t[0],
{
    assert(!starts_with(t, paragraph_break())) by {
        if starts_with(t, paragraph_break()) {
            assert(t.take(2)[0] == t[0]);
        }
    }
}

proof fn lemma_prepend_break_free(c: char, x: Seq<char>)
    requires
        break_free(x),
        c != '\n' || x.len() == 0 || x[0] != '\n',
    ensures
        break_free(seq![c] + x),
{
    let y = seq![c] + x;
    assert forall|j: int| 0 <= j < y.len() - 1 implies !#[trigger] break_at(y, j) by {
        if j > 0 {
            assert(y[j] == x[j - 1] && y[j + 1] == x[j]);
            assert(!break_at(x, j - 1));
        }
    }
}

/// Turning every paragraph break into a carriage return leaves no two line
/// feeds in a row.
pub proof fn collapse_is_break_free(s: Seq<char>)
    ensures
        break_free(replaced(s, paragraph_break(), seq!['\r'])),
    decreases s.len(),
{
    let nn = paragraph_break();
    let r = replaced(s, nn, seq!['\r']);
    if s.len() == 0 {
    } else if starts_with(s, nn) {
        collapse_is_break_free(s.skip(2));
        lemma_prepend_break_free('\r', replaced(s.skip(2), nn, seq!['\r']));
        assert(r == seq!['\r'] + replaced(s.skip(2), nn, seq!['\r']));
    } else {
        let t = s.drop_first();
        collapse_is_break_free(t);
        if s[0] == '\n' && t.len() > 0 {
            assert(t[0] != '\n') by {
                if t[0] == '\n' {
                    assert(s.take(2) =~= nn);
                }
            }
            lemma_collapse_first(t);
        }
        lemma_prepend_break_free(s[0], replaced(t, nn, seq!['\r']));
    }
}

proof fn lemma_break_free_no_occurrence(x: Seq<char>, i: int)
    requires
        break_free(x),
        i >= 0,
    ensures
        find_from(x, paragraph_break(), i) is None,
    decreases x.len() - i,
{
    let nn = paragraph_break();
    if !(i + 2 > x.len()) {
        if occurs_at(x, nn, i) {
            assert(x.subrange(i, i + 2)[0] == x[i]);
            assert(x.subrange(i, i + 2)[1] == x[i + 1]);
            assert(break_at(x, i));
        }
        if i < x.len() {
            lemma_break_free_no_occurrence(x, i + 1);
        }
    }
}

/// A reply cut at an early paragraph break has no paragraph break left.
pub proof fn cut_reply_has_no_break(reply: Seq<char>)
    ensures
        finished(reply).1 ==> !has_substring(finished(reply).0, paragraph_break()),
{
    if let Some(k) = early_break(reply) {
        collapse_is_break_free(reply.skip(k + 2));
        lemma_break_free_no_occurrence(finished(reply).0, 0);
    }
}

/// A blacklisted answer is sent blank and not cached, whatever the rules.
pub proof fn blacklisted_is_blank(
    content: Seq<char>,
    blacklist: Seq<Seq<char>>,
    rules: TableView,
    picks: Seq<usize>,
)
    requires
        blank_by(content, blacklist),
    ensures
        processed(content, blacklist, rules, picks) == (Seq::<char>::empty(), false),
{
}

/// What becomes of an answer: blanked where it holds a blacklisted word,
/// else rewritten by the rules and cut at an early paragraph break.
pub open spec fn processed(
    content: Seq<char>,
    blacklist: Seq<Seq<char>>,
    rules: TableView,
    picks: Seq<usize>,
) -> (Seq<char>, bool) {
    if blank_by(content, blacklist) {
        (Seq::<char>::empty(), false)
    } else {
        finished(rewritten(content, rules, picks))
    }
}

/// Processing an answer that holds no blacklisted word is processing its
/// rewritten text with no rules and no blacklist: the rules apply to every
/// such answer, whether it is cut or not, and the cut is made on the
/// rewritten text.
pub proof fn processing_rewrites_first(
    content: Seq<char>,
    blacklist: Seq<Seq<char>>,
    rules: TableView,
    picks: Seq<usize>,
)
    requires
        !blank_by(content, blacklist),
    ensures
        processed(content, blacklist, rules, picks) == processed(
            rewritten(content, rules, picks),
            Seq::<Seq<char>>::empty(),
            Seq::<(Seq<char>, Seq<Seq<char>>)>::empty(),
            Seq::<usize>::empty(),
        ),
{
    let r = rewritten(content, rules, picks);
    assert(!blank_by(r, Seq::<Seq<char>>::empty()));
    assert(rewritten(
        r,
        Seq::<(Seq<char>, Seq<Seq<char>>)>::empty(),
        Seq::<usize>::empty(),
    ) == r);
}

/// A rule applied alone replaces every occurrence of its key by the chosen
/// replacement, as `str::replace` does.
pub proof fn one_rule_is_replace(reply: Seq<char>, key: Seq<char>, values: Seq<Seq<char>>, pick: usize)
    requires
        pick < values.len(),
    ensures
        rewritten(reply, seq![(key, values)], seq![pick]) == replaced(reply, key, values[pick as int]),
{
    let rules = seq![(key, values)];
    let picks = seq![pick];
    assert(rules.drop_first() =~= Seq::<(Seq<char>, Seq<Seq<char>>)>::empty());
    assert(picks.drop_first() =~= Seq::<usize>::empty());
    let x = replaced(reply, key, values[pick as int]);
    assert(rewritten(x, rules.drop_first(), picks.drop_first()) == x);
}

/// The rules act in turn: rewriting by the rules of `a` and then by those of
/// `b` is rewriting by all of them.
pub proof fn rules_apply_in_turn(
    reply: Seq<char>,
    a: TableView,
    b: TableView,
    pa: Seq<usize>,
    pb: Seq<usize>,
)
    requires
        pa.len() == a.len(),
    ensures
        rewritten(reply, a + b, pa + pb) == rewritten(rewritten(reply, a, pa), b, pb),
    decreases a.len(),
{
    if a.len() == 0 {
        assert(a + b =~= b);
        assert(pa + pb =~= pb);
    } else {
        assert((a + b)[0] == a[0]);
        assert((pa + pb)[0] == pa[0]);
        assert((a + b).drop_first() =~= a.drop_first() + b);
        assert((pa + pb).drop_first() =~= pa.drop_first() + pb);
        rules_apply_in_turn(
            replaced(reply, a[0].0, a[0].1[pa[0] as int]),
            a.drop_first(),
            b,
            pa.drop_first(),
            pb,
        );
    }
}

/// What a drawn processing may give is what processing gives with some
/// fitting choice of replacements (any choice, for a blacklisted answer).
pub proof fn outcome_is_a_processing(
    content: Seq<char>,
    blacklist: Seq<Seq<char>>,
    rules: TableView,
    out: (Seq<char>, bool),
)
    ensures
        blank_by(content, blacklist) ==> (possible_outcome(content, blacklist, rules, out) <==> out
            == processed(content, blacklist, rules, Seq::<usize>::empty())),
        !blank_by(content, blacklist) ==> (possible_outcome(content, blacklist, rules, out) <==> exists|
            picks: Seq<usize>,
        | picks_fit(rules, picks) && out == #[trigger] processed(content, blacklist, rules, picks)),
{
    if !blank_by(content, blacklist) {
        if possible_outcome(content, blacklist, rules, out) {
            let picks = choose|picks: Seq<usize>|
                picks_fit(rules, picks) && out == #[trigger] finished(
                    rewritten(content, rules, picks),
                );
            assert(out == processed(content, blacklist, rules, picks));
        }
        if exists|picks: Seq<usize>|
            picks_fit(rules, picks) && out == #[trigger] processed(content, blacklist, rules, picks) {
            let picks = choose|picks: Seq<usize>|
                picks_fit(rules, picks) && out == #[trigger] processed(
                    content,
                    blacklist,
                    rules,
                    picks,
                );
            assert(out == finished(rewritten(content, rules, picks)));
        }
    }
}

/// An answer as it is sent, and whether it goes into the cache.
pub struct Processed {
    pub reply: String,
    pub cacheable: bool,
}

/// Cuts `reply` at an early paragraph break.
pub fn finish_reply(reply: String) -> (p: Processed)
    ensures
        (p.reply@, p.cacheable) == finished(reply@),
{
    proof {
        reveal_strlit("\n\n");
        reveal_strlit("\r");
    }
    assert("\n\n"@ =~= paragraph_break());
    assert("\r"@ =~= seq!['\r']);
    match find(reply.as_str(), "\n\n") {
        Some(k) => {
            proof {
                crate::text::lemma_find_from_found(reply@, paragraph_break(), 0);
            }
            let chars = chars_of(reply.as_str());
            if utf8_prefix_shorter_than(&chars, k, 100) {
                let n: usize = chars.len();
                let rest = reply.as_str().substring_char(k + 2, n);
                assert(rest@ =~= reply@.skip(k + 2));
                Processed { reply: replace(rest, "\n\n", "\r"), cacheable: true }
            } else {
                Processed { reply, cacheable: false }
            }
        },
        None => Processed { reply, cacheable: false },
    }
}

/// Processes one answer with the replacements that `picks` chooses.
pub fn process_choice_with(content: &str, config: &ReplyConfig, picks: &Vec<usize>) -> (p:
    Processed)
    requires
        picks_fit(config.replace@, picks@),
    ensures
        (p.reply@, p.cacheable) == processed(
            content@,
            config.blacklist.deep_view(),
            config.replace@,
            picks@,
        ),
{
    if is_blacklisted(content, &config.blacklist) {
        Processed { reply: String::new(), cacheable: false }
    } else {
        finish_reply(rewrite(content, &config.replace, picks))
    }
}

/// What processing `content` may give, whichever replacements are drawn.
pub open spec fn possible_outcome(
    content: Seq<char>,
    blacklist: Seq<Seq<char>>,
    rules: TableView,
    out: (Seq<char>, bool),
) -> bool {
    if blank_by(content, blacklist) {
        out == (Seq::<char>::empty(), false)
    } else {
        exists|picks: Seq<usize>|
            picks_fit(rules, picks) && out == #[trigger] finished(rewritten(content, rules, picks))
    }
}

/// Processes one answer, drawing a replacement for each rule.
pub fn process_choice(content: &str, config: &ReplyConfig) -> (p: Processed)
    requires
        !blank_by(content@, config.blacklist.deep_view()) ==> lists_nonempty(config.replace@),
    ensures
        possible_outcome(
            content@,
            config.blacklist.deep_view(),
            config.replace@,
            (p.reply@, p.cacheable),
        ),
{
    if is_blacklisted(content, &config.blacklist) {
        Processed { reply: String::new(), cacheable: false }
    } else {
        let picks = draw_picks(&config.replace);
        let p = finish_reply(rewrite(content, &config.replace, &picks));
        assert(picks_fit(config.replace@, picks@) && (p.reply@, p.cacheable) == finished(
            rewritten(content@, config.replace@, picks@),
        ));
        p
    }
}

/// The cache after the outcomes `outs`, in order: each cacheable answer added
/// to the list of `q`.
pub open spec fn cache_after(t: TableView, q: Seq<char>, outs: Seq<(Seq<char>, bool)>) -> TableView
    decreases outs.len(),
{
    if outs.len() == 0 {
        t
    } else {
        let before = cache_after(t, q, outs.drop_last());
        if outs.last().1 {
            table_append(before, q, outs.last().0)
        } else {
            before
        }
    }
}

/// The list cached for `q`, or the empty list where there is none.
pub open spec fn cached_list(t: TableView, q: Seq<char>) -> Seq<Seq<char>> {
    match table_get(t, q) {
        Some(l) => l,
        None => Seq::<Seq<char>>::empty(),
    }
}

/// The texts of the cacheable outcomes, in order.
pub open spec fn cacheable_texts(outs: Seq<(Seq<char>, bool)>) -> Seq<Seq<char>>
    decreases outs.len(),
{
    if outs.len() == 0 {
        Seq::empty()
    } else if outs.last().1 {
        cacheable_texts(outs.drop_last()).push(outs.last().0)
    } else {
        cacheable_texts(outs.drop_last())
    }
}

/// Caching a call's outcomes keeps what was cached: the question's list
/// becomes its former list followed by the cacheable answers in order (and
/// is untouched where none is cacheable), and no other question's list
/// changes.
pub proof fn caching_appends(t: TableView, q: Seq<char>, outs: Seq<(Seq<char>, bool)>)
    ensures
        table_get(cache_after(t, q, outs), q) == (if cacheable_texts(outs).len() == 0 {
            table_get(t, q)
        } else {
            Some(cached_list(t, q) + cacheable_texts(outs))
        }),
        forall|q2: Seq<char>|
            q2 != q ==> #[trigger] table_get(cache_after(t, q, outs), q2) == table_get(t, q2),
    decreases outs.len(),
{
    if outs.len() > 0 {
        let prev = outs.drop_last();
        caching_appends(t, q, prev);
        let before = cache_after(t, q, prev);
        if outs.last().1 {
            let x = outs.last().0;
            cache_read_after_write(before, q, x, q);
            assert forall|q2: Seq<char>| q2 != q implies #[trigger] table_get(
                cache_after(t, q, outs),
                q2,
            ) == table_get(t, q2) by {
                cache_read_after_write(before, q, x, q2);
            }
            if cacheable_texts(prev).len() == 0 {
                assert(cacheable_texts(outs) =~= Seq::<Seq<char>>::empty().push(x));
                assert(cached_list(t, q).push(x) =~= cached_list(t, q) + cacheable_texts(outs));
            } else {
                assert(cached_list(before, q) == cached_list(t, q) + cacheable_texts(prev));
                assert((cached_list(t, q) + cacheable_texts(prev)).push(x) =~= cached_list(t, q)
                    + cacheable_texts(outs));
            }
        }
    }
}

/// Processes the answers the service gave to `question`, in order, caching
/// those that are cut at an early paragraph break; gives the answers to send.
pub fn finish_completion(
    cache: &mut ReplyCache,
    question: &str,
    contents: &Vec<String>,
    config: &ReplyConfig,
) -> (replies: Vec<String>)
    requires
        forall|i: int|
            0 <= i < contents@.len() && !blank_by(
                #[trigger] contents@[i]@,
                config.blacklist.deep_view(),
            ) ==> lists_nonempty(config.replace@),
    ensures
        replies@.len() == contents@.len(),
        exists|outs: Seq<(Seq<char>, bool)>|
            {
                &&& outs.len() == contents@.len()
                &&& forall|i: int|
                    0 <= i < outs.len() ==> possible_outcome(
                        #[trigger] contents@[i]@,
                        config.blacklist.deep_view(),
                        config.replace@,
                        outs[i],
                    ) && replies@[i]@ == outs[i].0
                &&& final(cache)@ == cache_after(old(cache)@, question@, outs)
            },
        cache_ok(final(cache)@),
{
    let n: usize = contents.len();
    let mut replies: Vec<String> = Vec::new();
    let mut i: usize = 0;
    let ghost mut outs: Seq<(Seq<char>, bool)> = Seq::empty();
    let ghost start = cache@;
    while i < n
        invariant
            n == contents@.len(),
            i <= n,
            forall|j: int|
                0 <= j < contents@.len() && !blank_by(
                    #[trigger] contents@[j]@,
                    config.blacklist.deep_view(),
                ) ==> lists_nonempty(config.replace@),
            outs.len() == i,
            replies@.len() == i,
            forall|j: int|
                0 <= j < i ==> possible_outcome(
                    #[trigger] contents@[j]@,
                    config.blacklist.deep_view(),
                    config.replace@,
                    outs[j],
                ) && replies@[j]@ == outs[j].0,
            cache@ == cache_after(start, question@, outs),
        decreases n - i,
    {
        let p = process_choice(contents[i].as_str(), config);
        let ghost out = (p.reply@, p.cacheable);
        proof {
            if p.cacheable {
                let c = contents@[i as int]@;
                let bl = config.blacklist.deep_view();
                let rules = config.replace@;
                assert(!blank_by(c, bl));
                let picks = choose|picks: Seq<usize>|
                    picks_fit(rules, picks) && out == #[trigger] finished(
                        rewritten(c, rules, picks),
                    );
                cut_reply_has_no_break(rewritten(c, rules, picks));
            }
        }
        if p.cacheable {
            cache.add_reply(question, p.reply.clone());
        }
        replies.push(p.reply);
        proof {
            let prev = outs;
            outs = outs.push(out);
            assert(outs.drop_last() =~= prev);
            assert(outs.last() == out);
        }
        i = i + 1;
    }
    proof {
        use_type_invariant(&*cache);
    }
    replies
}

/// The request asking the chat model `question`.
pub fn chat_question(question: &str) -> (q: Question)
    ensures
        q.model@ == "gpt-3.5-turbo"@,
        q.messages@.len() == 1,
        q.messages@[0].role == crate::model::openai::Role::User,
        q.messages@[0].content@ == question@,
{
    Question::new_with_default().set_content(String::from_str(question))
}

impl OpenAIConfig {
    /// The chat completion endpoint of the service.
    pub fn chat_completions_endpoint(&self) -> (r: String)
        ensures
            r@ == self.api_domain@ + "/v1/chat/completions"@,
    {
        self.api_domain.clone().concat("/v1/chat/completions")
    }

    /// The header that authorizes a request with the API key.
    pub fn authorization_header(&self) -> (r: String)
        ensures
            r@ == "Authorization: Bearer "@ + self.api_key@,
    {
        String::from_str("Authorization: Bearer ").concat(self.api_key.as_str())
    }
}

} // verus!
