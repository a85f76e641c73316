//! What scripts can change and look up while a page is being rendered: the response, the cookies
//! of the request and the sessions.
use crate::string_map::StringMap;
use crate::text::{
    cut, first_index, is_blank, is_tight, is_white_space, law_cutting_undoes_putting_together, law_pieces_of_two_texts,
    law_text_without_separator_stays_whole, law_trimming_takes_off_white_space, lemma_first_index,
    pieces, split, split_once, trim, trimmed,
};
use vstd::prelude::*;
use vstd::string::*;

verus! {

/// A map of texts, each value taken as its characters.
pub open spec fn texts(m: Map<Seq<char>, String>) -> Map<Seq<char>, Seq<char>> {
    m.map_values(|s: String| s@)
}

proof fn lemma_texts_insert(m: Map<Seq<char>, String>, k: Seq<char>, v: String)
    ensures
        texts(m.insert(k, v)) == texts(m).insert(k, v@),
{
    assert(texts(m.insert(k, v)) =~= texts(m).insert(k, v@));
}

/// What the scripts of a page have asked of the response.
#[derive(Debug)]
pub struct ResponseState {
    /// The status code, once one was asked for.
    pub status: Option<u16>,
    /// The response headers.
    pub headers: StringMap<String>,
    /// The cookies to set.
    pub cookies: StringMap<String>,
}

/// A response of which nothing has been asked.
pub open spec fn no_response() -> (
    Option<u16>,
    Map<Seq<char>, Seq<char>>,
    Map<Seq<char>, Seq<char>>,
) {
    (None, Map::empty(), Map::empty())
}

impl View for ResponseState {
    type V = (Option<u16>, Map<Seq<char>, Seq<char>>, Map<Seq<char>, Seq<char>>);

    open spec fn view(&self) -> (
        Option<u16>,
        Map<Seq<char>, Seq<char>>,
        Map<Seq<char>, Seq<char>>,
    ) {
        (self.status, texts(self.headers@), texts(self.cookies@))
    }
}

impl Default for ResponseState {
    fn default() -> (r: Self)
        ensures
            r.status is None,
            r.headers@ == Map::<Seq<char>, String>::empty(),
            r.cookies@ == Map::<Seq<char>, String>::empty(),
            r@ == no_response(),
    {
        let r = ResponseState {
            status: None,
            headers: StringMap::new(),
            cookies: StringMap::new(),
        };
        assert(texts(r.headers@) =~= Map::<Seq<char>, Seq<char>>::empty());
        assert(texts(r.cookies@) =~= Map::<Seq<char>, Seq<char>>::empty());
        r
    }
}

impl ResponseState {
    /// `RES.status(code)`.
    pub fn set_status(&mut self, code: u16)
        ensures
            *final(self) == (ResponseState { status: Some(code), ..*old(self) }),
    {
        self.status = Some(code);
    }

    /// `RES.setHeader(name, value)`.
    pub fn set_header(&mut self, name: String, value: String)
        ensures
            final(self).headers@ == old(self).headers@.insert(name@, value),
            final(self).status == old(self).status,
            final(self).cookies == old(self).cookies,
    {
        self.headers.insert(name, value);
    }

    /// `COOKIE.set(name, value)`.
    pub fn set_cookie(&mut self, name: String, value: String)
        ensures
            final(self).cookies@ == old(self).cookies@.insert(name@, value),
            final(self).status == old(self).status,
            final(self).headers == old(self).headers,
    {
        self.cookies.insert(name, value);
    }
}

/// The cookie in one piece of a `Cookie` header: the name before the first `=` and the value
/// after it, both trimmed.
pub open spec fn cookie_in(piece: Seq<char>) -> Option<(Seq<char>, Seq<char>)> {
    match cut(piece, '=') {
        Some((name, value)) => Some((trimmed(name), trimmed(value))),
        None => None,
    }
}

/// The cookies in a list of pieces; a later cookie overrides an earlier one of its name.
pub open spec fn cookies_in(parts: Seq<Seq<char>>) -> Map<Seq<char>, Seq<char>>
    decreases parts.len(),
{
    if parts.len() == 0 {
        Map::empty()
    } else {
        match cookie_in(parts.last()) {
            Some((name, value)) => cookies_in(parts.drop_last()).insert(name, value),
            None => cookies_in(parts.drop_last()),
        }
    }
}

/// The cookies of a `Cookie` header.
pub open spec fn cookies_of(header: Seq<char>) -> Map<Seq<char>, Seq<char>> {
    cookies_in(pieces(header, ';'))
}

/// The cookies of a `Cookie` header.
pub fn parse_cookies(header: &str) -> (cookies: StringMap<String>)
    ensures
        texts(cookies@) == cookies_of(header@),
{
    let parts = split(header, ';');
    let ghost all = pieces(header@, ';');
    let mut cookies: StringMap<String> = StringMap::new();
    let mut i: usize = 0;
    assert(texts(cookies@) =~= Map::<Seq<char>, Seq<char>>::empty());
    while i < parts.len()
        invariant
            i <= parts.len(),
            all == parts@.map_values(|p: &str| p@),
            texts(cookies@) == cookies_in(all.take(i as int)),
        decreases parts.len() - i,
    {
        assert(all.take(i + 1).drop_last() == all.take(i as int));
        assert(all.take(i + 1).last() == parts@[i as int]@);
        match split_once(parts[i], '=') {
            Some((name, value)) => {
                let k = trim(name).to_owned();
                let v = trim(value).to_owned();
                proof {
                    lemma_texts_insert(cookies@, k@, v);
                }
                cookies.insert(k, v);
            },
            None => {},
        }
        i = i + 1;
    }
    assert(all.take(all.len() as int) == all);
    cookies
}

/// The session that a request belongs to: its cookie `sid`, or `default_sid` without one.
pub open spec fn session_id_of(cookies: Map<Seq<char>, Seq<char>>) -> Seq<char> {
    if cookies.dom().contains("sid"@) {
        cookies["sid"@]
    } else {
        "default_sid"@
    }
}

/// The session that a request with these cookies belongs to.
pub fn session_id(cookies: &StringMap<String>) -> (sid: String)
    ensures
        sid@ == session_id_of(texts(cookies@)),
{
    match cookies.get("sid") {
        Some(sid) => sid.clone(),
        None => "default_sid".to_owned(),
    }
}

/// `COOKIE.get(name)`: the request's cookie of that name.
pub fn cookie_get(cookies: &StringMap<String>, name: &str) -> (r: Option<String>)
    ensures
        r is Some <==> texts(cookies@).dom().contains(name@),
        r matches Some(v) ==> v@ == texts(cookies@)[name@],
{
    match cookies.get(name) {
        Some(v) => Some(v.clone()),
        None => None,
    }
}

/// The values that scripts keep from one call to the next, apart for each session.
#[derive(Debug)]
pub struct SessionStore {
    sessions: StringMap<StringMap<String>>,
}

impl View for SessionStore {
    type V = Map<Seq<char>, Map<Seq<char>, Seq<char>>>;

    closed spec fn view(&self) -> Map<Seq<char>, Map<Seq<char>, Seq<char>>> {
        self.sessions@.map_values(|m: StringMap<String>| texts(m@))
    }
}

/// What a session holds under a key.
pub open spec fn session_value(
    store: Map<Seq<char>, Map<Seq<char>, Seq<char>>>,
    sid: Seq<char>,
    key: Seq<char>,
) -> Option<Seq<char>> {
    if store.dom().contains(sid) && store[sid].dom().contains(key) {
        Some(store[sid][key])
    } else {
        None
    }
}

/// The store after a session was given a value under a key.
pub open spec fn with_session_value(
    store: Map<Seq<char>, Map<Seq<char>, Seq<char>>>,
    sid: Seq<char>,
    key: Seq<char>,
    value: Seq<char>,
) -> Map<Seq<char>, Map<Seq<char>, Seq<char>>> {
    let session = if store.dom().contains(sid) {
        store[sid]
    } else {
        Map::empty()
    };
    store.insert(sid, session.insert(key, value))
}

impl SessionStore {
    /// A store without sessions.
    pub fn new() -> (r: Self)
        ensures
            r@ == Map::<Seq<char>, Map<Seq<char>, Seq<char>>>::empty(),
    {
        let r = SessionStore { sessions: StringMap::new() };
        assert(r@ =~= Map::<Seq<char>, Map<Seq<char>, Seq<char>>>::empty());
        r
    }

    /// `SESSION.get(key)` for the session `sid`.
    pub fn get(&self, sid: &str, key: &str) -> (r: Option<String>)
        ensures
            r is Some <==> session_value(self@, sid@, key@) is Some,
            r matches Some(v) ==> v@ == session_value(self@, sid@, key@)->0,
    {
        match self.sessions.get(sid) {
            Some(session) => match session.get(key) {
                Some(v) => Some(v.clone()),
                None => None,
            },
            None => None,
        }
    }

    /// `SESSION.set(key, value)` for the session `sid`.
    pub fn set(&mut self, sid: &str, key: String, value: String)
        ensures
            final(self)@ == with_session_value(old(self)@, sid@, key@, value@),
    {
        let mut session = match self.sessions.get(sid) {
            Some(s) => {
                let c = s.clone();
                assert(c.pairs() =~= s.pairs());
                c
            },
            None => StringMap::new(),
        };
        let ghost before = session@;
        proof {
            lemma_texts_insert(before, key@, value);
            assert(texts(Map::<Seq<char>, String>::empty()) =~= Map::empty());
        }
        session.insert(key, value);
        let ghost after = session;
        self.sessions.insert(sid.to_owned(), session);
        assert(self@ =~= old(self)@.insert(sid@, texts(after@)));
    }
}

/// A session gives back under a key what was last put there.
pub proof fn law_session_read_after_write(
    store: Map<Seq<char>, Map<Seq<char>, Seq<char>>>,
    sid: Seq<char>,
    key: Seq<char>,
    value: Seq<char>,
)
    ensures
        session_value(with_session_value(store, sid, key, value), sid, key) == Some(value),
{
}

/// Putting a value into one session changes nothing else: no other session, and no other key of
/// that session.
pub proof fn law_sessions_are_separate(
    store: Map<Seq<char>, Map<Seq<char>, Seq<char>>>,
    sid: Seq<char>,
    key: Seq<char>,
    value: Seq<char>,
    other_sid: Seq<char>,
    other_key: Seq<char>,
)
    requires
        other_sid != sid || other_key != key,
    ensures
        session_value(with_session_value(store, sid, key, value), other_sid, other_key)
            == session_value(store, other_sid, other_key),
{
}

/// Of two cookies with one name the later one counts.
pub proof fn law_later_cookie_wins(parts: Seq<Seq<char>>, piece: Seq<char>)
    requires
        cookie_in(piece) is Some,
    ensures
        cookies_in(parts.push(piece)).dom().contains((cookie_in(piece)->0).0),
        cookies_in(parts.push(piece))[(cookie_in(piece)->0).0] == (cookie_in(piece)->0).1,
{
    assert(parts.push(piece).drop_last() == parts);
}

/// A piece of a `Cookie` header without `=` says nothing.
pub proof fn law_piece_without_equals_is_ignored(parts: Seq<Seq<char>>, piece: Seq<char>)
    requires
        !piece.contains('='),
    ensures
        cookies_in(parts.push(piece)) == cookies_in(parts),
{
    assert(parts.push(piece).drop_last() == parts);
}

/// A map of texts has the keys of the map, and under each the characters of its value.
pub proof fn law_texts_are_those_of_the_map(m: Map<Seq<char>, String>)
    ensures
        texts(m).dom() == m.dom(),
        forall|k: Seq<char>|
            m.dom().contains(k) ==> #[trigger] texts(m)[k] == m[k]@,
{
}

/// A name that a cookie can have in a `Cookie` header.
pub open spec fn is_cookie_name(name: Seq<char>) -> bool {
    !name.contains('=') && !name.contains(';') && is_tight(name)
}

/// A value that a cookie can have in a `Cookie` header.
pub open spec fn is_cookie_value(value: Seq<char>) -> bool {
    !value.contains(';') && is_tight(value)
}

/// A cookie as it stands in a `Cookie` header.
pub open spec fn written_cookie(name: Seq<char>, value: Seq<char>) -> Seq<char> {
    name + seq!['='] + value
}

proof fn lemma_blank_holds_no_sign(blank: Seq<char>)
    requires
        is_blank(blank),
    ensures
        !blank.contains('='),
        !blank.contains(';'),
{
    if blank.contains('=') {
        let i = choose|i: int| 0 <= i < blank.len() && blank[i] == '=';
        assert(is_white_space(blank[i]));
    }
    if blank.contains(';') {
        let i = choose|i: int| 0 <= i < blank.len() && blank[i] == ';';
        assert(is_white_space(blank[i]));
    }
}

proof fn lemma_not_in_three(a: Seq<char>, b: Seq<char>, c: Seq<char>, x: char)
    requires
        !a.contains(x),
        !b.contains(x),
        !c.contains(x),
    ensures
        !(a + b + c).contains(x),
{
    let s = a + b + c;
    if s.contains(x) {
        let i = choose|i: int| 0 <= i < s.len() && s[i] == x;
        if i < a.len() {
            assert(a[i] == x);
        } else if i < a.len() + b.len() {
            assert(b[i - a.len()] == x);
        } else {
            assert(c[i - a.len() - b.len()] == x);
        }
    }
}

/// A piece of a `Cookie` header is a cookie with the name before its first `=` and the value behind
/// it, whatever white space stands around the two, and as they are written otherwise.
pub proof fn law_cookie_with_white_space_around(
    a: Seq<char>,
    name: Seq<char>,
    b: Seq<char>,
    c: Seq<char>,
    value: Seq<char>,
    d: Seq<char>,
)
    requires
        is_cookie_name(name),
        is_cookie_value(value),
        is_blank(a),
        is_blank(b),
        is_blank(c),
        is_blank(d),
    ensures
        cookie_in((a + name + b) + seq!['='] + (c + value + d)) == Some((name, value)),
        !((a + name + b) + seq!['='] + (c + value + d)).contains(';'),
{
    lemma_blank_holds_no_sign(a);
    lemma_blank_holds_no_sign(b);
    lemma_blank_holds_no_sign(c);
    lemma_blank_holds_no_sign(d);
    lemma_not_in_three(a, name, b, '=');
    lemma_not_in_three(a, name, b, ';');
    lemma_not_in_three(c, value, d, ';');
    let left = a + name + b;
    let right = c + value + d;
    law_cutting_undoes_putting_together(left, '=', right);
    law_trimming_takes_off_white_space(a, name, b);
    law_trimming_takes_off_white_space(c, value, d);
    assert(!seq!['='].contains(';'));
    lemma_not_in_three(left, seq!['='], right, ';');
}

/// A `Cookie` header that is one piece with `=` in it holds that one cookie.
pub proof fn law_header_of_one_piece(piece: Seq<char>)
    requires
        !piece.contains(';'),
        cookie_in(piece) is Some,
    ensures
        cookies_of(piece) == Map::<Seq<char>, Seq<char>>::empty().insert(
            (cookie_in(piece)->0).0,
            (cookie_in(piece)->0).1,
        ),
{
    law_text_without_separator_stays_whole(piece, ';');
    let parts = seq![piece];
    assert(parts.drop_last() =~= Seq::<Seq<char>>::empty());
    assert(cookies_in(parts.drop_last()) == Map::<Seq<char>, Seq<char>>::empty());
}

/// One piece more behind a `;`: if it is a cookie, the header holds it besides those that it held
/// before, in place of an earlier one of its name; a piece without `=` changes nothing.
pub proof fn law_one_piece_more(header: Seq<char>, piece: Seq<char>)
    requires
        !piece.contains(';'),
    ensures
        cookie_in(piece) matches Some(cookie) ==> cookies_of(header + seq![';'] + piece)
            == cookies_of(header).insert(cookie.0, cookie.1),
        !piece.contains('=') ==> cookie_in(piece) is None && cookies_of(
            header + seq![';'] + piece,
        ) == cookies_of(header),
{
    law_pieces_of_two_texts(header, ';', piece);
    law_text_without_separator_stays_whole(piece, ';');
    let parts = pieces(header, ';') + seq![piece];
    assert(parts.drop_last() =~= pieces(header, ';'));
    assert(parts.last() == piece);
}

proof fn lemma_cookie_in_written(front: Seq<char>, name: Seq<char>, value: Seq<char>)
    requires
        is_cookie_name(name),
        is_cookie_value(value),
        is_blank(front),
    ensures
        cookie_in(front + written_cookie(name, value)) == Some((name, value)),
        !(front + written_cookie(name, value)).contains(';'),
{
    let none = Seq::<char>::empty();
    law_cookie_with_white_space_around(front, name, none, none, value, none);
    assert(front + written_cookie(name, value) =~= (front + name + none) + seq!['='] + (none
        + value + none));
}

/// A `Cookie` header of one cookie holds that cookie and no other, under its name and with its
/// value as they are written.
pub proof fn law_one_cookie(name: Seq<char>, value: Seq<char>)
    requires
        is_cookie_name(name),
        is_cookie_value(value),
    ensures
        cookies_of(written_cookie(name, value)) == Map::<Seq<char>, Seq<char>>::empty().insert(
            name,
            value,
        ),
{
    let none = Seq::<char>::empty();
    let header = written_cookie(name, value);
    assert(none + header =~= header);
    lemma_cookie_in_written(none, name, value);
    law_text_without_separator_stays_whole(header, ';');
    let parts = seq![header];
    assert(parts.drop_last() =~= Seq::<Seq<char>>::empty());
    assert(cookies_in(parts.drop_last()) == Map::<Seq<char>, Seq<char>>::empty());
}

/// With `; ` and one cookie more behind it, a `Cookie` header holds the cookies that it held before
/// and that one, which overrides an earlier one of its name.
pub proof fn law_one_cookie_more(header: Seq<char>, name: Seq<char>, value: Seq<char>)
    requires
        is_cookie_name(name),
        is_cookie_value(value),
    ensures
        cookies_of(header + seq![';', ' '] + written_cookie(name, value)) == cookies_of(
            header,
        ).insert(name, value),
{
    let last = seq![' '] + written_cookie(name, value);
    lemma_cookie_in_written(seq![' '], name, value);
    assert(header + seq![';', ' '] + written_cookie(name, value) =~= header + seq![';'] + last);
    law_pieces_of_two_texts(header, ';', last);
    law_text_without_separator_stays_whole(last, ';');
    let parts = pieces(header, ';') + seq![last];
    assert(parts.drop_last() =~= pieces(header, ';'));
    assert(parts.last() == last);
}

/// A `Cookie` header of two cookies with different names holds both.
pub proof fn law_two_cookies(
    name: Seq<char>,
    value: Seq<char>,
    other_name: Seq<char>,
    other_value: Seq<char>,
)
    requires
        is_cookie_name(name),
        is_cookie_value(value),
        is_cookie_name(other_name),
        is_cookie_value(other_value),
        name != other_name,
    ensures
        ({
            let cookies = cookies_of(
                written_cookie(name, value) + seq![';', ' '] + written_cookie(
                    other_name,
                    other_value,
                ),
            );
            &&& cookies.dom() == set![name, other_name]
            &&& cookies[name] == value
            &&& cookies[other_name] == other_value
        }),
{
    law_one_cookie(name, value);
    law_one_cookie_more(written_cookie(name, value), other_name, other_value);
    let cookies = Map::<Seq<char>, Seq<char>>::empty().insert(name, value).insert(
        other_name,
        other_value,
    );
    assert(cookies.dom() =~= set![name, other_name]);
}

/// A header without `=` holds no cookies.
pub proof fn law_no_cookies_without_equals(header: Seq<char>)
    requires
        !header.contains('='),
    ensures
        cookies_of(header) == Map::<Seq<char>, Seq<char>>::empty(),
    decreases header.len(),
{
    lemma_first_index(header, ';');
    let i = first_index(header, ';');
    if i < header.len() {
        let front = header.take(i);
        let rest = header.skip(i + 1);
        assert(header =~= front + seq![';'] + rest);
        law_pieces_of_two_texts(front, ';', rest);
        law_text_without_separator_stays_whole(front, ';');
        law_no_cookies_without_equals(rest);
        lemma_piece_in_front(front, pieces(rest, ';'));
    } else {
        law_text_without_separator_stays_whole(header, ';');
        assert(seq![header].drop_last() =~= Seq::<Seq<char>>::empty());
        assert(cookies_in(seq![header].drop_last()) == Map::<Seq<char>, Seq<char>>::empty());
    }
}

proof fn lemma_piece_in_front(piece: Seq<char>, parts: Seq<Seq<char>>)
    requires
        !piece.contains('='),
    ensures
        cookies_in(seq![piece] + parts) == cookies_in(parts),
    decreases parts.len(),
{
    let all = seq![piece] + parts;
    if parts.len() == 0 {
        assert(all.drop_last() =~= parts);
        assert(all.last() == piece);
    } else {
        assert(all.drop_last() =~= seq![piece] + parts.drop_last());
        assert(all.last() == parts.last());
        lemma_piece_in_front(piece, parts.drop_last());
    }
}

/// A request whose header holds a cookie `sid` behind whatever others belongs to the session of that
/// name, and one whose header holds no cookies belongs to the session `default_sid`.
pub proof fn law_session_of_a_header(header: Seq<char>, sid: Seq<char>)
    requires
        is_cookie_value(sid),
    ensures
        session_id_of(cookies_of(header + seq![';', ' '] + written_cookie("sid"@, sid))) == sid,
        session_id_of(cookies_of(written_cookie("sid"@, sid))) == sid,
        session_id_of(cookies_of(seq![])) == "default_sid"@,
{
    reveal_strlit("sid");
    assert("sid"@ =~= seq!['s', 'i', 'd']);
    law_one_cookie_more(header, "sid"@, sid);
    law_one_cookie("sid"@, sid);
    law_no_cookies_without_equals(seq![]);
}

/// The session of a request is that of its cookie `sid` alone: other cookies do not count.
pub proof fn law_other_cookies_do_not_choose_the_session(
    cookies: Map<Seq<char>, Seq<char>>,
    name: Seq<char>,
    value: Seq<char>,
)
    requires
        name != "sid"@,
    ensures
        session_id_of(cookies.insert(name, value)) == session_id_of(cookies),
        session_id_of(cookies.insert("sid"@, value)) == value,
        session_id_of(cookies.remove("sid"@)) == "default_sid"@,
{
}

} // verus!
