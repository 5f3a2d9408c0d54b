//! Article lookup: the articles offered (in configured order) and their names and prices

use crate::json::reader::{chars_eq, string_chars};
use crate::ota::chars_to_string;
use crate::text::has_prefix;
use crate::user::{
    distinct_keys, lemma_distinct_push, lemma_insert_len, lemma_pairs_map_finite,
    lemma_pairs_map_lookup, lemma_pairs_map_update, pairs_map,
};
use crate::vereinsflieger::proto_articles::{Article as VereinsfliegerArticle, Date, price_on};
use vstd::prelude::*;

verus! {

/// Article id, the Vereinsflieger `articleid` attribute
pub type ArticleId = String;

/// Article information
#[derive(Debug, PartialEq)]
pub struct Article<P> {
    pub name: String,
    pub price: P,
}

/// Whether a character is white space (Unicode `White_Space`, as `char::is_whitespace` and
/// `str::trim_start` use it)
pub open spec fn is_unicode_ws(c: char) -> bool {
    let u = c as u32;
    (0x09 <= u <= 0x0d) || u == 0x20 || u == 0x85 || u == 0xa0 || u == 0x1680 || (0x2000 <= u
        <= 0x200a) || u == 0x2028 || u == 0x2029 || u == 0x202f || u == 0x205f || u == 0x3000
}

/// Text without its leading white space (`str::trim_start`)
pub open spec fn trim_ws_start(s: Seq<char>) -> Seq<char>
    decreases s.len(),
{
    if s.len() > 0 && is_unicode_ws(s[0]) {
        trim_ws_start(s.drop_first())
    } else {
        s
    }
}

/// Text with a non-empty prefix removed as often as it occurs at the start
/// (`str::trim_start_matches`)
pub open spec fn strip_all(s: Seq<char>, p: Seq<char>) -> Seq<char>
    decreases s.len(),
{
    if p.len() > 0 && has_prefix(s, p) {
        strip_all(s.skip(p.len() as int), p)
    } else {
        s
    }
}

/// Article name as shown: without the generic prefixes "Getränke " and "Getränk " and without
/// leading white space
pub open spec fn display_name(name: Seq<char>) -> Seq<char> {
    trim_ws_start(strip_all(strip_all(name, "Getränke "@), "Getränk "@))
}

/// A name is shown without a generic "Getränke " or "Getränk " in front and without leading
/// white space; a name that starts with neither a generic prefix nor white space is shown as it is
pub proof fn law_display_name(name: Seq<char>, ws: Seq<char>)
    requires
        !has_prefix(name, "Getränk"@),
        name.len() > 0 ==> !is_unicode_ws(name[0]),
        ws.len() > 0,
        forall|i: int| 0 <= i < ws.len() ==> is_unicode_ws(#[trigger] ws[i]),
    ensures
        display_name(name) == name,
        display_name("Getränke "@ + name) == name,
        display_name("Getränk "@ + name) == name,
        display_name(ws + name) == name,
{
    reveal_strlit("Getränke ");
    reveal_strlit("Getränk ");
    reveal_strlit("Getränk");
    let p1 = "Getränke "@;
    let p2 = "Getränk "@;
    let g = "Getränk"@;
    assert(p1.take(7) =~= g);
    assert(p2.take(7) =~= g);
    // the name itself has neither prefix
    assert(!has_prefix(name, p1)) by {
        if has_prefix(name, p1) {
            assert(name.take(7) =~= p1.take(7));
        }
    }
    assert(!has_prefix(name, p2)) by {
        if has_prefix(name, p2) {
            assert(name.take(7) =~= p2.take(7));
        }
    }
    assert(trim_ws_start(name) == name);
    // "Getränke " + name
    let a = p1 + name;
    assert(has_prefix(a, p1)) by {
        assert(a.take(9) =~= p1);
    }
    assert(a.skip(9) =~= name);
    assert(strip_all(a, p1) == strip_all(name, p1));
    assert(!has_prefix(name, p1));
    // "Getränk " + name: not "Getränke " (the eighth character is a space), then stripped
    let b = p2 + name;
    assert(!has_prefix(b, p1)) by {
        if has_prefix(b, p1) {
            assert(b[7] == p1[7]);
        }
    }
    assert(has_prefix(b, p2)) by {
        assert(b.take(8) =~= p2);
    }
    assert(b.skip(8) =~= name);
    assert(strip_all(b, p2) == strip_all(name, p2));
    // white space + name
    let c = ws + name;
    assert(!has_prefix(c, p1)) by {
        if has_prefix(c, p1) {
            assert(c[0] == p1[0]);
        }
    }
    assert(!has_prefix(c, p2)) by {
        if has_prefix(c, p2) {
            assert(c[0] == p2[0]);
        }
    }
    lemma_trim_ws_prefix(ws, name);
}

/// Leading white space is trimmed as a whole
proof fn lemma_trim_ws_prefix(ws: Seq<char>, name: Seq<char>)
    requires
        forall|i: int| 0 <= i < ws.len() ==> is_unicode_ws(#[trigger] ws[i]),
        name.len() > 0 ==> !is_unicode_ws(name[0]),
    ensures
        trim_ws_start(ws + name) == name,
    decreases ws.len(),
{
    if ws.len() > 0 {
        assert((ws + name).drop_first() =~= ws.drop_first() + name);
        assert(ws[0] == (ws + name)[0]);
        assert forall|i: int| 0 <= i < ws.drop_first().len() implies is_unicode_ws(
            #[trigger] ws.drop_first()[i],
        ) by {
            assert(ws.drop_first()[i] == ws[i + 1]);
        }
        lemma_trim_ws_prefix(ws.drop_first(), name);
    } else {
        assert(ws + name =~= name);
    }
}

/// Whether a character is white space
pub fn is_whitespace(c: char) -> (r: bool)
    ensures
        r == is_unicode_ws(c),
{
    let u = c as u32;
    (0x09 <= u && u <= 0x0d) || u == 0x20 || u == 0x85 || u == 0xa0 || u == 0x1680 || (0x2000 <= u
        && u <= 0x200a) || u == 0x2028 || u == 0x2029 || u == 0x202f || u == 0x205f || u == 0x3000
}

/// Remove a prefix as often as it occurs at the start
fn strip_all_exec(s: Vec<char>, p: &[char]) -> (r: Vec<char>)
    ensures
        r@ == strip_all(s@, p@),
{
    if p.len() == 0 {
        return s;
    }
    let mut cur = s;
    loop
        invariant
            p@.len() > 0,
            strip_all(s@, p@) == strip_all(cur@, p@),
        decreases cur@.len(),
    {
        if cur.len() < p.len() {
            return cur;
        }
        let head = copy_range(cur.as_slice(), 0, p.len());
        if !chars_eq(head.as_slice(), p) {
            assert(cur@.take(p@.len() as int) == head@);
            return cur;
        }
        assert(cur@.take(p@.len() as int) == head@);
        let next = copy_range(cur.as_slice(), p.len(), cur.len());
        assert(next@ == cur@.skip(p@.len() as int));
        cur = next;
    }
}

/// Copy of a range of characters
fn copy_range(cs: &[char], from: usize, to: usize) -> (r: Vec<char>)
    requires
        from <= to <= cs@.len(),
    ensures
        r@ == cs@.subrange(from as int, to as int),
{
    let mut v: Vec<char> = Vec::new();
    let mut i = from;
    while i < to
        invariant
            from <= i <= to <= cs@.len(),
            v@ == cs@.subrange(from as int, i as int),
        decreases to - i,
    {
        v.push(cs[i]);
        assert(cs@.subrange(from as int, i + 1) =~= cs@.subrange(from as int, i as int).push(
            cs@[i as int],
        ));
        i = i + 1;
    }
    v
}

/// Remove leading white space
fn trim_start_exec(s: &[char]) -> (r: Vec<char>)
    ensures
        r@ == trim_ws_start(s@),
{
    let mut i: usize = 0;
    assert(s@.skip(0) =~= s@);
    while i < s.len() && is_whitespace(s[i])
        invariant
            i <= s@.len(),
            trim_ws_start(s@) == trim_ws_start(s@.skip(i as int)),
        decreases s.len() - i,
    {
        assert(s@.skip(i as int).drop_first() =~= s@.skip(i + 1));
        i = i + 1;
    }
    copy_range(s, i, s.len())
}

/// Article name as shown: without the generic prefixes and leading white space
pub fn trim_name(name: &str) -> (r: String)
    ensures
        r@ == display_name(name@),
{
    let cs = string_chars(name);
    let a = strip_all_exec(cs, string_chars("Getränke ").as_slice());
    let b = strip_all_exec(a, string_chars("Getränk ").as_slice());
    let c = trim_start_exec(b.as_slice());
    chars_to_string(c.as_slice())
}

/// Article lookup table: look up article information (name and price) by index (0 = 1st
/// article). The list of article ids is given on initialization (from static system
/// configuration), while article information is fetched later from Vereinsflieger.
#[derive(Debug)]
pub struct Articles<P> {
    /// Article ids in order
    ids: Vec<ArticleId>,
    /// Article id to article information
    articles: Vec<(ArticleId, Article<P>)>,
}

/// Pairs of article ids and article information
pub open spec fn article_pairs<P>(es: Seq<(ArticleId, Article<P>)>) -> Seq<(Seq<char>, (Seq<char>, P))> {
    es.map_values(|e: (ArticleId, Article<P>)| (e.0@, (e.1.name@, e.1.price)))
}

/// Ids (in order) that have article information
pub open spec fn listed<P>(ids: Seq<Seq<char>>, m: Map<Seq<char>, (Seq<char>, P)>) -> Seq<Seq<char>>
    decreases ids.len(),
{
    if ids.len() == 0 {
        seq![]
    } else if m.dom().contains(ids.last()) {
        listed(ids.drop_last(), m).push(ids.last())
    } else {
        listed(ids.drop_last(), m)
    }
}

/// Views of strings
pub open spec fn string_views(v: Seq<String>) -> Seq<Seq<char>> {
    v.map_values(|s: String| s@)
}

impl<P> Articles<P> {
    #[verifier::type_invariant]
    closed spec fn inv(self) -> bool {
        distinct_keys(article_pairs(self.articles@))
    }

    /// Article ids in the configured order
    pub closed spec fn id_list(&self) -> Seq<Seq<char>> {
        string_views(self.ids@)
    }

    /// Article information (name and price) by id
    pub closed spec fn article_map(&self) -> Map<Seq<char>, (Seq<char>, P)> {
        pairs_map(article_pairs(self.articles@))
    }

    /// The article table of every article lookup table is finite
    pub proof fn lemma_articles_finite(&self)
        ensures
            self.article_map().dom().finite(),
    {
        lemma_pairs_map_finite(article_pairs(self.articles@));
    }

    /// Create new article lookup table for the given article ids
    pub fn new(ids: Vec<ArticleId>) -> (r: Self)
        ensures
            r.id_list() == string_views(ids@),
            r.article_map() == Map::<Seq<char>, (Seq<char>, P)>::empty(),
            r.article_map().dom().finite(),
    {
        let r = Articles { ids, articles: Vec::new() };
        assert(article_pairs(r.articles@) =~= Seq::<(Seq<char>, (Seq<char>, P))>::empty());
        r
    }

    /// Clear all article information
    pub fn clear(&mut self)
        ensures
            final(self).id_list() == old(self).id_list(),
            final(self).article_map() == Map::<Seq<char>, (Seq<char>, P)>::empty(),
            final(self).article_map().dom().finite(),
    {
        self.articles = Vec::new();
        assert(article_pairs(self.articles@) =~= Seq::<(Seq<char>, (Seq<char>, P))>::empty());
    }

    /// Whether the id is one of the configured article ids
    fn has_id(&self, id: &str) -> (r: bool)
        ensures
            r == self.id_list().contains(id@),
    {
        let want = string_chars(id);
        let mut i: usize = 0;
        while i < self.ids.len()
            invariant
                i <= self.ids@.len(),
                want@ == id@,
                forall|j: int| 0 <= j < i ==> self.id_list()[j] != id@,
            decreases self.ids.len() - i,
        {
            let have = string_chars(self.ids[i].as_str());
            if chars_eq(have.as_slice(), want.as_slice()) {
                assert(self.id_list()[i as int] == id@);
                return true;
            }
            i = i + 1;
        }
        false
    }

    /// Update article with given article id, trimming generic prefixes and leading white space
    /// from its name. Ignores article ids not in the list.
    pub fn update_article(&mut self, id: &ArticleId, name: &str, price: P)
        ensures
            final(self).id_list() == old(self).id_list(),
            old(self).id_list().contains(id@) ==> final(self).article_map() == old(
                self,
            ).article_map().insert(id@, (display_name(name@), price)),
            !old(self).id_list().contains(id@) ==> final(self).article_map() == old(
                self,
            ).article_map(),
            final(self).article_map().dom().finite(),
    {
        proof {
            use_type_invariant(&*self);
            old(self).lemma_articles_finite();
            lemma_insert_len(old(self).article_map(), id@, (display_name(name@), price));
        }
        let trimmed = trim_name(name);
        if !self.has_id(id.as_str()) {
            return;
        }
        let key = string_chars(id.as_str());
        let mut articles: Vec<(ArticleId, Article<P>)> = Vec::new();
        std::mem::swap(&mut articles, &mut self.articles);
        let ghost ps = article_pairs(articles@);
        let ghost v = (trimmed@, price);
        let mut i: usize = 0;
        while i < articles.len()
            invariant
                i <= articles@.len(),
                ps == article_pairs(articles@),
                distinct_keys(ps),
                pairs_map(ps) == old(self).article_map(),
                self.ids@ == old(self).ids@,
                self.articles@.len() == 0,
                key@ == id@,
                v == (trimmed@, price),
                trimmed@ == display_name(name@),
                old(self).id_list().contains(id@),
                old(self).article_map().insert(id@, v).dom().finite(),
                forall|j: int| 0 <= j < i ==> #[trigger] articles@[j].0@ != id@,
            decreases articles.len() - i,
        {
            let have = string_chars(articles[i].0.as_str());
            if chars_eq(have.as_slice(), key.as_slice()) {
                proof {
                    assert(ps[i as int].0 == id@);
                    lemma_pairs_map_update(ps, i as int, v);
                }
                let entry_id = chars_to_string(key.as_slice());
                articles.set(i, (entry_id, Article { name: trimmed, price }));
                assert(article_pairs(articles@) =~= ps.update(i as int, (id@, v)));
                self.articles = articles;
                return;
            }
            i = i + 1;
        }
        proof {
            lemma_pairs_map_lookup(ps);
            if pairs_map(ps).dom().contains(id@) {
                let j = choose|j: int| 0 <= j < ps.len() && #[trigger] ps[j].0 == id@;
                assert(articles@[j].0@ == id@);
            }
            lemma_distinct_push(ps, id@, v);
        }
        let entry_id = chars_to_string(key.as_slice());
        articles.push((entry_id, Article { name: trimmed, price }));
        assert(article_pairs(articles@) =~= ps.push((id@, v)));
        assert(ps.push((id@, v)).drop_last() =~= ps);
        self.articles = articles;
    }

    /// Number of articles with information
    pub fn count(&self) -> (r: usize)
        ensures
            self.article_map().dom().finite(),
            r == self.article_map().dom().len(),
    {
        proof {
            use_type_invariant(self);
            lemma_pairs_map_lookup(article_pairs(self.articles@));
        }
        self.articles.len()
    }

    /// Look up article by article id
    pub fn get(&self, id: &str) -> (r: Option<&Article<P>>)
        ensures
            match r {
                Some(a) => self.article_map().dom().contains(id@) && (a.name@, a.price)
                    == self.article_map()[id@],
                None => !self.article_map().dom().contains(id@),
            },
    {
        let key = string_chars(id);
        let ghost ps = article_pairs(self.articles@);
        let mut i: usize = 0;
        while i < self.articles.len()
            invariant
                i <= self.articles@.len(),
                ps == article_pairs(self.articles@),
                key@ == id@,
                forall|j: int| 0 <= j < i ==> #[trigger] self.articles@[j].0@ != id@,
            decreases self.articles.len() - i,
        {
            let have = string_chars(self.articles[i].0.as_str());
            if chars_eq(have.as_slice(), key.as_slice()) {
                proof {
                    use_type_invariant(self);
                    lemma_pairs_map_lookup(ps);
                    assert(ps[i as int].0 == id@);
                }
                return Some(&self.articles[i].1);
            }
            i = i + 1;
        }
        proof {
            use_type_invariant(self);
            lemma_pairs_map_lookup(ps);
            if pairs_map(ps).dom().contains(id@) {
                let j = choose|j: int| 0 <= j < ps.len() && #[trigger] ps[j].0 == id@;
                assert(self.articles@[j].0@ == id@);
            }
        }
        None
    }

    /// Look up article at given index among the articles with information, in the order given
    /// on initialization
    pub fn get_by_index(&self, index: usize) -> (r: Option<(&ArticleId, &Article<P>)>)
        ensures
            index < listed(self.id_list(), self.article_map()).len() ==> (r matches Some((id, a))
                && id@ == listed(self.id_list(), self.article_map())[index as int] && (a.name@,
            a.price) == self.article_map()[id@]),
            index >= listed(self.id_list(), self.article_map()).len() ==> r is None,
    {
        let ghost m = self.article_map();
        let mut seen: usize = 0;
        let mut i: usize = 0;
        while i < self.ids.len()
            invariant
                i <= self.ids@.len(),
                m == self.article_map(),
                seen == listed(self.id_list().take(i as int), m).len(),
                seen <= index,
            decreases self.ids.len() - i,
        {
            proof {
                assert(self.id_list().take(i + 1).drop_last() =~= self.id_list().take(i as int));
                assert(self.id_list().take(i + 1).last() == self.ids@[i as int]@);
            }
            match self.get(self.ids[i].as_str()) {
                Some(a) => {
                    if seen == index {
                        proof {
                            lemma_listed_prefix(self.id_list(), m, i + 1);
                            let t = self.id_list().take(i + 1);
                            assert(listed(t, m)[seen as int] == self.ids@[i as int]@);
                        }
                        return Some((&self.ids[i], a));
                    }
                    seen = seen + 1;
                },
                None => {},
            }
            i = i + 1;
        }
        assert(self.id_list().take(i as int) =~= self.id_list());
        None
    }
}

/// The listed ids of a prefix of the ids are a prefix of the listed ids
proof fn lemma_listed_prefix<P>(ids: Seq<Seq<char>>, m: Map<Seq<char>, (Seq<char>, P)>, k: int)
    requires
        0 <= k <= ids.len(),
    ensures
        listed(ids.take(k), m).len() <= listed(ids, m).len(),
        forall|j: int|
            0 <= j < listed(ids.take(k), m).len() ==> #[trigger] listed(ids.take(k), m)[j]
                == listed(ids, m)[j],
    decreases ids.len() - k,
{
    if k < ids.len() {
        lemma_listed_prefix(ids, m, k + 1);
        assert(ids.take(k + 1).drop_last() =~= ids.take(k));
        assert(ids.take(k + 1).last() == ids[k]);
        let a = listed(ids.take(k), m);
        let b = listed(ids.take(k + 1), m);
        assert forall|j: int| 0 <= j < a.len() implies #[trigger] a[j] == listed(ids, m)[j] by {
            assert(a[j] == b[j]);
        }
    } else {
        assert(ids.take(k) =~= ids);
    }
}

impl<P: Copy> Articles<P> {
    /// Update article using the given Vereinsflieger article with its price on the given date;
    /// ignored if it has no price valid on that date
    pub fn update_vereinsflieger_article(&mut self, article: &VereinsfliegerArticle<P>, date: Date)
        ensures
            final(self).id_list() == old(self).id_list(),
            match price_on(article.prices@, date) {
                Some(price) => if old(self).id_list().contains(article.articleid@) {
                    final(self).article_map() == old(self).article_map().insert(
                        article.articleid@,
                        (display_name(article.designation@), price),
                    )
                } else {
                    final(self).article_map() == old(self).article_map()
                },
                None => final(self).article_map() == old(self).article_map(),
            },
            final(self).article_map().dom().finite(),
    {
        proof {
            self.lemma_articles_finite();
        }
        match article.price_valid_on(date) {
            Some(price) => self.update_article(&article.articleid, article.designation.as_str(), price),
            None => {},
        }
    }
}

/// Updating an article: the number of articles with information grows by one exactly when the
/// article had none before
pub proof fn law_update_article_count<P>(
    before: Articles<P>,
    after: Articles<P>,
    id: Seq<char>,
    info: (Seq<char>, P),
)
    requires
        after.article_map() == before.article_map().insert(id, info),
    ensures
        after.article_map().dom().len() == before.article_map().dom().len() + if before.article_map().dom().contains(
            id,
        ) {
            0int
        } else {
            1int
        },
{
    before.lemma_articles_finite();
    lemma_insert_len(before.article_map(), id, info);
}

/// Article information after updating with each received Vereinsflieger article in turn, each
/// with its price on the given date (see `update_vereinsflieger_article`)
pub open spec fn refreshed_articles<P>(
    m: Map<Seq<char>, (Seq<char>, P)>,
    ids: Seq<Seq<char>>,
    received: Seq<VereinsfliegerArticle<P>>,
    date: Date,
) -> Map<Seq<char>, (Seq<char>, P)>
    decreases received.len(),
{
    if received.len() == 0 {
        m
    } else {
        let prev = refreshed_articles(m, ids, received.drop_last(), date);
        let a = received.last();
        match price_on(a.prices@, date) {
            Some(price) => if ids.contains(a.articleid@) {
                prev.insert(a.articleid@, (display_name(a.designation@), price))
            } else {
                prev
            },
            None => prev,
        }
    }
}

impl<P: Copy> Articles<P> {
    /// Replace all article information by that of the received Vereinsflieger articles, with
    /// their prices on the given date. Returns the number of articles received.
    pub fn refresh(&mut self, received: &[VereinsfliegerArticle<P>], date: Date) -> (total: usize)
        ensures
            final(self).id_list() == old(self).id_list(),
            final(self).article_map() == refreshed_articles(
                Map::empty(),
                old(self).id_list(),
                received@,
                date,
            ),
            total == received@.len(),
            final(self).article_map().dom().finite(),
    {
        self.clear();
        let mut i: usize = 0;
        assert(received@.take(0) =~= Seq::<VereinsfliegerArticle<P>>::empty());
        while i < received.len()
            invariant
                i <= received@.len(),
                self.id_list() == old(self).id_list(),
                self.article_map() == refreshed_articles(
                    Map::empty(),
                    old(self).id_list(),
                    received@.take(i as int),
                    date,
                ),
                self.article_map().dom().finite(),
            decreases received.len() - i,
        {
            self.update_vereinsflieger_article(&received[i], date);
            assert(received@.take(i + 1).drop_last() =~= received@.take(i as int));
            i = i + 1;
        }
        assert(received@.take(i as int) =~= received@);
        received.len()
    }
}

} // verus!
