//! Topic names, topic filters and wildcard matching.
//!
//! A filter matches a topic name when, after splitting both on `/`, each
//! filter level equals the topic level or is `+`, or the filter ends in `#`
//! consuming the rest.  A filter whose first level is a wildcard never
//! matches a topic that starts with `$`, so server-internal topics are only
//! reached by filters that name `$SYS` themselves.

use vstd::prelude::*;

verus! {

/// Why a topic string was rejected.
#[derive(Debug, Clone, Copy, PartialEq, Eq, Structural)]
pub enum TopicError {
    EmptyTopic,
    TooManyData,
    InvalidChar,
    ContainsWildChar,
}

/// The position of the first `sep` in `s`, or its length if there is none.
pub open spec fn first_sep(s: Seq<char>, sep: char) -> nat
    decreases s.len(),
{
    if s.len() == 0 {
        0
    } else if s[0] == sep {
        0
    } else {
        1 + first_sep(s.drop_first(), sep)
    }
}

/// A position with the separator and none before it is the first one.
pub proof fn lemma_first_sep_at(s: Seq<char>, sep: char, i: int)
    requires
        0 <= i <= s.len(),
        i < s.len() ==> s[i] == sep,
        i == s.len() || s[i] == sep,
        forall|j: int| 0 <= j < i ==> s[j] != sep,
    ensures
        first_sep(s, sep) == i,
    decreases s.len(),
{
    if s.len() > 0 && s[0] != sep {
        assert(i != 0);
        lemma_first_sep_at(s.drop_first(), sep, i - 1);
    }
}

/// The segments of `s` between occurrences of `sep`.
pub open spec fn split_on(s: Seq<char>, sep: char) -> Seq<Seq<char>>
    decreases s.len(),
{
    let i = first_sep(s, sep) as int;
    if i < s.len() {
        seq![s.take(i)] + split_on(s.skip(i + 1), sep)
    } else {
        seq![s]
    }
}

/// The levels of a topic string: the segments between the slashes.
pub open spec fn split_levels(s: Seq<char>) -> Seq<Seq<char>> {
    split_on(s, '/')
}

/// Splitting always yields at least one segment.
pub proof fn lemma_split_levels_len(s: Seq<char>)
    ensures
        split_levels(s).len() >= 1,
{
}

/// Unfold the split at the first separator.
pub proof fn lemma_split_at_sep(s: Seq<char>, sep: char, i: int)
    requires
        0 <= i < s.len(),
        s[i] == sep,
        forall|j: int| 0 <= j < i ==> s[j] != sep,
    ensures
        split_on(s, sep) == seq![s.take(i)] + split_on(s.skip(i + 1), sep),
{
    lemma_first_sep_at(s, sep, i);
}

/// A string without the separator is one segment.
pub proof fn lemma_split_no_sep(s: Seq<char>, sep: char)
    requires
        forall|j: int| 0 <= j < s.len() ==> s[j] != sep,
    ensures
        split_on(s, sep) == seq![s],
{
    lemma_first_sep_at(s, sep, s.len() as int);
}

/// Whether filter levels match topic levels: level by level, `+` matches any
/// one level, and `#` matches every remaining level including none.
pub open spec fn levels_match(fl: Seq<Seq<char>>, tl: Seq<Seq<char>>) -> bool
    decreases fl.len(),
{
    if fl.len() == 0 {
        tl.len() == 0
    } else if fl[0] == seq!['#'] {
        true
    } else if tl.len() == 0 {
        false
    } else {
        (fl[0] == seq!['+'] || fl[0] == tl[0]) && levels_match(fl.drop_first(), tl.drop_first())
    }
}

/// Whether the filter string matches the topic string.  The empty topic
/// matches nothing, and a leading wildcard level never matches a topic that
/// starts with `$`.
pub open spec fn spec_filter_matches(filter: Seq<char>, topic: Seq<char>) -> bool {
    let fl = split_levels(filter);
    &&& topic.len() > 0
    &&& !((fl[0] == seq!['+'] || fl[0] == seq!['#']) && topic[0] == '$')
    &&& levels_match(fl, split_levels(topic))
}

/// Whether a level holds a wildcard character.
pub open spec fn spec_has_wildcard(l: Seq<char>) -> bool {
    l.contains('#') || l.contains('+')
}

/// Whether a level can stand in a parsed filter: one of the two wildcard
/// levels, or free of wildcard characters.
pub open spec fn spec_level_parseable(l: Seq<char>) -> bool {
    l == seq!['#'] || l == seq!['+'] || !spec_has_wildcard(l)
}

/// A valid topic filter: non-empty; every `#` is the last character and
/// follows a slash or starts the filter; every `+` fills a whole level.
pub open spec fn spec_valid_sub_topic(f: Seq<char>) -> bool {
    &&& f.len() > 0
    &&& forall|i: int|
        0 <= i < f.len() && #[trigger] f[i] == '#' ==> i == f.len() - 1 && (i == 0 || f[i - 1]
            == '/')
    &&& forall|i: int|
        0 <= i < f.len() && #[trigger] f[i] == '+' ==> (i == 0 || f[i - 1] == '/') && (i == f.len()
            - 1 || f[i + 1] == '/')
}

/// A valid topic name: non-empty, at most 65535 bytes, without wildcards
/// and without NUL.
pub open spec fn spec_valid_pub_topic(t: Seq<char>) -> bool {
    &&& t.len() > 0
    &&& vstd::utf8::encode_utf8(t).len() <= 65535
    &&& !t.contains('#')
    &&& !t.contains('+')
    &&& !vstd::utf8::encode_utf8(t).contains(0u8)
}

/// Compare two strings character by character.
pub fn str_eq(a: &str, b: &str) -> (r: bool)
    ensures
        r == (a@ == b@),
{
    let na = a.unicode_len();
    let nb = b.unicode_len();
    if na != nb {
        return false;
    }
    let mut i: usize = 0;
    while i < na
        invariant
            0 <= i <= na,
            na == a@.len(),
            na == b@.len(),
            forall|j: int| 0 <= j < i ==> a@[j] == b@[j],
        decreases na - i,
    {
        if a.get_char(i) != b.get_char(i) {
            return false;
        }
        i += 1;
    }
    proof {
        assert(a@ =~= b@);
    }
    true
}

/// One level of a topic string.
#[derive(Debug, Clone)]
pub enum TopicPart {
    /// A level such as `$SYS` that names the server-internal namespace.
    Internal(String),
    /// An ordinary level.
    Normal(String),
    /// An empty level, as between two adjacent slashes.
    Empty,
    /// The `#` level, matching all remaining levels.
    MultiWildcard,
    /// The `+` level, matching exactly one level.
    SingleWildcard,
}

impl TopicPart {
    /// The characters this part stands for.
    pub open spec fn spec_level(&self) -> Seq<char> {
        match self {
            TopicPart::Internal(s) => s@,
            TopicPart::Normal(s) => s@,
            TopicPart::Empty => Seq::empty(),
            TopicPart::MultiWildcard => seq!['#'],
            TopicPart::SingleWildcard => seq!['+'],
        }
    }

    /// Each variant carries only the levels it is meant for.
    pub open spec fn wf(&self) -> bool {
        match self {
            TopicPart::Internal(s) => s@.len() > 0 && s@[0] == '$' && !spec_has_wildcard(s@),
            TopicPart::Normal(s) => s@.len() > 0 && s@[0] != '$' && !spec_has_wildcard(s@),
            _ => true,
        }
    }

    /// Whether a level string holds a wildcard character.
    pub fn has_wildcard(s: &str) -> (r: bool)
        ensures
            r == spec_has_wildcard(s@),
    {
        let n = s.unicode_len();
        let mut i: usize = 0;
        while i < n
            invariant
                0 <= i <= n,
                n == s@.len(),
                forall|j: int| 0 <= j < i ==> s@[j] != '#' && s@[j] != '+',
            decreases n - i,
        {
            let c = s.get_char(i);
            if c == '#' || c == '+' {
                proof {
                    assert(s@.contains(s@[i as int]));
                }
                return true;
            }
            i += 1;
        }
        proof {
            if s@.contains('#') {
                let j = choose|j: int| 0 <= j < s@.len() && s@[j] == '#';
                assert(s@[j] != '#');
            }
            if s@.contains('+') {
                let j = choose|j: int| 0 <= j < s@.len() && s@[j] == '+';
                assert(s@[j] != '+');
            }
        }
        false
    }

    /// Whether a level names the server-internal namespace.
    pub fn is_internal(s: &str) -> (r: bool)
        ensures
            r == (s@.len() > 0 && s@[0] == '$'),
    {
        if s.is_empty() {
            false
        } else {
            s.get_char(0) == '$'
        }
    }

    /// Classify one level of a topic string.
    pub fn parse(s: &str) -> (r: Result<TopicPart, TopicError>)
        ensures
            r is Ok <==> (s@ == seq!['#'] || s@ == seq!['+'] || !spec_has_wildcard(s@)),
            r matches Ok(p) ==> p.spec_level() == s@ && p.wf(),
            r is Err ==> r == Err::<TopicPart, TopicError>(TopicError::ContainsWildChar),
    {
        let n = s.unicode_len();
        if n == 0 {
            proof {
                assert(s@ =~= Seq::<char>::empty());
                if spec_has_wildcard(s@) {
                    let j = choose|j: int| 0 <= j < s@.len() && (s@[j] == '#' || s@[j] == '+');
                }
            }
            return Ok(TopicPart::Empty);
        }
        if n == 1 {
            let c = s.get_char(0);
            if c == '#' {
                proof {
                    assert(s@ =~= seq!['#']);
                }
                return Ok(TopicPart::MultiWildcard);
            }
            if c == '+' {
                proof {
                    assert(s@ =~= seq!['+']);
                }
                return Ok(TopicPart::SingleWildcard);
            }
        }
        if TopicPart::has_wildcard(s) {
            proof {
                if s@ == seq!['#'] {
                    assert(s@.contains('#'));
                }
                if s@ == seq!['+'] {
                    assert(s@.contains('+'));
                }
                if s@.len() == 1 {
                    assert(s@ =~= seq![s@[0]]);
                }
            }
            Err(TopicError::ContainsWildChar)
        } else if TopicPart::is_internal(s) {
            Ok(TopicPart::Internal(s.to_owned()))
        } else {
            Ok(TopicPart::Normal(s.to_owned()))
        }
    }
}

impl Default for TopicPart {
    fn default() -> (r: Self)
        ensures
            r == TopicPart::Empty,
    {
        TopicPart::Empty
    }
}

/// The views of a list of level strings.
pub open spec fn level_views(levels: Seq<String>) -> Seq<Seq<char>> {
    levels.map_values(|x: String| x@)
}

/// Split a string into its levels.
pub fn split_str(s: &str) -> (levels: Vec<String>)
    ensures
        level_views(levels@) == split_levels(s@),
{
    split_str_on(s, '/')
}

/// Split a string into the segments between occurrences of `sep`.
pub fn split_str_on(s: &str, sep: char) -> (levels: Vec<String>)
    ensures
        level_views(levels@) == split_on(s@, sep),
{
    let n = s.unicode_len();
    let mut levels: Vec<String> = Vec::new();
    let mut start: usize = 0;
    let mut i: usize = 0;
    proof {
        assert(s@.skip(0) =~= s@);
        assert(level_views(levels@) =~= Seq::<Seq<char>>::empty());
        assert(split_on(s@, sep) =~= level_views(levels@) + split_on(s@.skip(0), sep));
    }
    while i < n
        invariant
            0 <= start <= i <= n,
            n == s@.len(),
            forall|j: int| start <= j < i ==> s@[j] != sep,
            split_on(s@, sep) =~= level_views(levels@) + split_on(s@.skip(start as int), sep),
        decreases n - i,
    {
        if s.get_char(i) == sep {
            let level = s.substring_char(start, i).to_owned();
            proof {
                let rest = s@.skip(start as int);
                let k = i - start;
                assert(rest[k] == sep);
                assert(forall|j: int| 0 <= j < k ==> rest[j] != sep);
                lemma_split_at_sep(rest, sep, k);
                assert(rest.take(k) =~= s@.subrange(start as int, i as int));
                assert(rest.skip(k + 1) =~= s@.skip(i + 1));
                assert(level_views(levels@.push(level)) =~= level_views(levels@) + seq![
                    s@.subrange(start as int, i as int),
                ]);
            }
            levels.push(level);
            start = i + 1;
        }
        i += 1;
    }
    let last = s.substring_char(start, n).to_owned();
    proof {
        let rest = s@.skip(start as int);
        assert(forall|j: int| 0 <= j < rest.len() ==> rest[j] != sep);
        lemma_split_no_sep(rest, sep);
        assert(level_views(levels@.push(last)) =~= level_views(levels@) + seq![rest]);
        assert(last@ == rest);
    }
    levels.push(last);
    assert(level_views(levels@) =~= split_on(s@, sep));
    levels
}

/// A parsed topic filter: the filter string and its classified levels.
#[derive(Debug, Clone)]
pub struct Topic {
    topic: String,
    parts: Vec<TopicPart>,
}

impl Topic {
    /// The filter string.
    pub closed spec fn spec_topic(&self) -> Seq<char> {
        self.topic@
    }

    /// The classified levels.
    pub closed spec fn spec_parts(&self) -> Seq<TopicPart> {
        self.parts@
    }

    /// The parts are exactly the classified levels of the filter string.
    pub open spec fn wf(&self) -> bool {
        &&& self.spec_parts().len() == split_levels(self.spec_topic()).len()
        &&& forall|k: int|
            0 <= k < self.spec_parts().len() ==> (#[trigger] self.spec_parts()[k]).spec_level()
                == split_levels(self.spec_topic())[k] && self.spec_parts()[k].wf()
    }

    /// Classify every level of a topic string; a wildcard character inside
    /// a longer level fails the parse.
    pub fn parse_parts(s: &str) -> (r: Result<Vec<TopicPart>, TopicError>)
        ensures
            r is Ok <==> (forall|k: int|
                0 <= k < split_levels(s@).len() ==> spec_level_parseable(
                    #[trigger] split_levels(s@)[k],
                )),
            r matches Ok(parts) ==> {
                &&& parts@.len() == split_levels(s@).len()
                &&& forall|k: int|
                    0 <= k < parts@.len() ==> (#[trigger] parts@[k]).spec_level() == split_levels(
                        s@,
                    )[k] && parts@[k].wf()
            },
            r is Err ==> r == Err::<Vec<TopicPart>, TopicError>(TopicError::ContainsWildChar),
    {
        let levels = split_str(s);
        let mut parts: Vec<TopicPart> = Vec::new();
        let mut k: usize = 0;
        while k < levels.len()
            invariant
                0 <= k <= levels@.len(),
                level_views(levels@) == split_levels(s@),
                parts@.len() == k,
                forall|j: int|
                    0 <= j < k ==> (#[trigger] parts@[j]).spec_level() == split_levels(s@)[j]
                        && parts@[j].wf(),
                forall|j: int|
                    0 <= j < k ==> spec_level_parseable(#[trigger] split_levels(s@)[j]),
            decreases levels@.len() - k,
        {
            let part = match TopicPart::parse(levels[k].as_str()) {
                Ok(p) => p,
                Err(e) => {
                    proof {
                        assert(!spec_level_parseable(split_levels(s@)[k as int]));
                    }
                    return Err(e);
                },
            };
            parts.push(part);
            k += 1;
        }
        Ok(parts)
    }

    /// Parse a topic filter, classifying each level.
    pub fn parse(s: &str) -> (r: Result<Topic, TopicError>)
        ensures
            r is Ok <==> (forall|k: int|
                0 <= k < split_levels(s@).len() ==> spec_level_parseable(
                    #[trigger] split_levels(s@)[k],
                )),
            r matches Ok(t) ==> t.wf() && t.spec_topic() == s@,
            r is Err ==> r == Err::<Topic, TopicError>(TopicError::ContainsWildChar),
    {
        let parts = Topic::parse_parts(s)?;
        Ok(Topic { topic: s.to_owned(), parts })
    }

    /// Whether this filter matches the topic name `s`.
    pub fn is_match(&self, s: &str) -> (r: bool)
        requires
            self.wf(),
        ensures
            r == spec_filter_matches(self.spec_topic(), s@),
    {
        let ghost fl = split_levels(self.spec_topic());
        proof {
            lemma_split_levels_len(self.spec_topic());
        }
        if s.is_empty() {
            return false;
        }
        if s.get_char(0) == '$' {
            let wild_first = matches!(
                &self.parts[0],
                TopicPart::MultiWildcard | TopicPart::SingleWildcard
            );
            if wild_first {
                return false;
            }
            proof {
                lemma_part_level_shapes(self.spec_parts()[0]);
            }
        }
        let tl_vec = split_str(s);
        let ghost tl = split_levels(s@);
        proof {
            assert(fl.skip(0) =~= fl);
            assert(tl.skip(0) =~= tl);
        }
        let mut k: usize = 0;
        loop
            invariant
                self.wf(),
                0 <= k <= self.parts@.len(),
                k <= tl_vec@.len(),
                fl == split_levels(self.spec_topic()),
                tl == split_levels(s@),
                level_views(tl_vec@) == tl,
                levels_match(fl, tl) == levels_match(fl.skip(k as int), tl.skip(k as int)),
                s@.len() > 0,
                !((fl[0] == seq!['+'] || fl[0] == seq!['#']) && s@[0] == '$'),
            decreases self.parts@.len() - k,
        {
            if k == self.parts.len() {
                proof {
                    assert(fl.skip(k as int) =~= Seq::<Seq<char>>::empty());
                }
                let done = k == tl_vec.len();
                proof {
                    if done {
                        assert(tl.skip(k as int) =~= Seq::<Seq<char>>::empty());
                    }
                }
                return done;
            }
            let ghost flk = fl.skip(k as int);
            let ghost tlk = tl.skip(k as int);
            proof {
                assert(flk[0] == self.spec_parts()[k as int].spec_level());
                lemma_part_level_shapes(self.spec_parts()[k as int]);
            }
            match &self.parts[k] {
                TopicPart::MultiWildcard => {
                    return true;
                },
                TopicPart::SingleWildcard => {
                    if k == tl_vec.len() {
                        return false;
                    }
                },
                TopicPart::Empty => {
                    if k == tl_vec.len() {
                        return false;
                    }
                    if !tl_vec[k].as_str().is_empty() {
                        proof {
                            assert(tlk[0] == tl_vec@[k as int]@);
                            assert(flk[0] != tlk[0]);
                            assert(flk[0] != seq!['+'] && flk[0] != seq!['#']);
                        }
                        return false;
                    }
                    proof {
                        assert(tlk[0] =~= Seq::<char>::empty());
                        assert(flk[0] == tlk[0]);
                    }
                },
                TopicPart::Normal(p) => {
                    if k == tl_vec.len() {
                        return false;
                    }
                    if !str_eq(p.as_str(), tl_vec[k].as_str()) {
                        proof {
                            assert(tlk[0] == tl_vec@[k as int]@);
                            assert(flk[0] != tlk[0]);
                        }
                        return false;
                    }
                    proof {
                        assert(flk[0] == tlk[0]);
                    }
                },
                TopicPart::Internal(p) => {
                    if k == tl_vec.len() {
                        return false;
                    }
                    if !str_eq(p.as_str(), tl_vec[k].as_str()) {
                        proof {
                            assert(tlk[0] == tl_vec@[k as int]@);
                            assert(flk[0] != tlk[0]);
                        }
                        return false;
                    }
                    proof {
                        assert(flk[0] == tlk[0]);
                    }
                },
            }
            proof {
                assert(flk.drop_first() =~= fl.skip(k + 1));
                assert(tlk.drop_first() =~= tl.skip(k + 1));
            }
            k += 1;
        }
    }

    /// The filter string.
    pub fn topic(&self) -> (r: &str)
        ensures
            r@ == self.spec_topic(),
    {
        self.topic.as_str()
    }

    /// The byte length of the filter string.
    pub fn len(&self) -> (r: usize)
        ensures
            r == vstd::utf8::encode_utf8(self.spec_topic()).len(),
    {
        self.topic.as_str().as_bytes().len()
    }

    /// The bytes of the filter string.
    pub fn as_bytes(&self) -> (r: &[u8])
        ensures
            r@ == vstd::utf8::encode_utf8(self.spec_topic()),
    {
        self.topic.as_str().as_bytes()
    }
}

/// A part other than `#` never reads as the `#` level, and likewise for `+`.
proof fn lemma_part_level_shapes(p: TopicPart)
    requires
        p.wf(),
    ensures
        !(p is MultiWildcard) ==> p.spec_level() != seq!['#'],
        !(p is SingleWildcard) ==> p.spec_level() != seq!['+'],
{
    assert(seq!['#'][0] == '#' && seq!['+'][0] == '+');
    match p {
        TopicPart::Internal(s) => {
            if s@ == seq!['#'] {
                assert(s@.contains('#'));
            }
            if s@ == seq!['+'] {
                assert(s@.contains('+'));
            }
        },
        TopicPart::Normal(s) => {
            if s@ == seq!['#'] {
                assert(s@.contains('#'));
            }
            if s@ == seq!['+'] {
                assert(s@.contains('+'));
            }
        },
        _ => {},
    }
}

impl Topic {
    /// Check a topic filter against the wildcard placement rules.
    pub fn validate_sub_topic(topic: &str) -> (r: Result<(), TopicError>)
        ensures
            r is Ok <==> spec_valid_sub_topic(topic@),
            topic@.len() == 0 ==> r == Err::<(), TopicError>(TopicError::EmptyTopic),
            topic@.len() > 0 && r is Err ==> r == Err::<(), TopicError>(TopicError::InvalidChar),
    {
        let n = topic.unicode_len();
        if n == 0 {
            return Err(TopicError::EmptyTopic);
        }
        let mut i: usize = 0;
        while i < n
            invariant
                0 <= i <= n,
                n == topic@.len(),
                forall|j: int|
                    0 <= j < i && #[trigger] topic@[j] == '#' ==> j == topic@.len() - 1 && (j == 0
                        || topic@[j - 1] == '/'),
                forall|j: int|
                    0 <= j < i && #[trigger] topic@[j] == '+' ==> (j == 0 || topic@[j - 1] == '/')
                        && (j == topic@.len() - 1 || topic@[j + 1] == '/'),
            decreases n - i,
        {
            let c = topic.get_char(i);
            if c == '#' {
                if i != n - 1 {
                    return Err(TopicError::InvalidChar);
                }
                if i > 0 && topic.get_char(i - 1) != '/' {
                    return Err(TopicError::InvalidChar);
                }
            } else if c == '+' {
                if i > 0 && topic.get_char(i - 1) != '/' {
                    return Err(TopicError::InvalidChar);
                }
                if i < n - 1 && topic.get_char(i + 1) != '/' {
                    return Err(TopicError::InvalidChar);
                }
            }
            i += 1;
        }
        Ok(())
    }

    /// Check a topic name: non-empty, within the length cap, no wildcards
    /// and no NUL.
    pub fn validate_pub_topic(topic: &str) -> (r: Result<(), TopicError>)
        ensures
            r is Ok <==> spec_valid_pub_topic(topic@),
            topic@.len() == 0 ==> r == Err::<(), TopicError>(TopicError::EmptyTopic),
            topic@.len() > 0 && vstd::utf8::encode_utf8(topic@).len() > 65535 ==> r == Err::<
                (),
                TopicError,
            >(TopicError::TooManyData),
            topic@.len() > 0 && vstd::utf8::encode_utf8(topic@).len() <= 65535 && r is Err ==> r
                == Err::<(), TopicError>(TopicError::InvalidChar),
    {
        if topic.is_empty() {
            return Err(TopicError::EmptyTopic);
        }
        if topic.as_bytes().len() > 65535 {
            return Err(TopicError::TooManyData);
        }
        let bytes = topic.as_bytes();
        let mut bi: usize = 0;
        while bi < bytes.len()
            invariant
                0 <= bi <= bytes@.len(),
                bytes@ == vstd::utf8::encode_utf8(topic@),
                topic@.len() > 0,
                vstd::utf8::encode_utf8(topic@).len() <= 65535,
                forall|j: int| 0 <= j < bi ==> bytes@[j] != 0u8,
            decreases bytes@.len() - bi,
        {
            if bytes[bi] == 0u8 {
                proof {
                    assert(vstd::utf8::encode_utf8(topic@).contains(0u8)) by {
                        assert(bytes@[bi as int] == 0u8);
                    }
                }
                return Err(TopicError::InvalidChar);
            }
            bi += 1;
        }
        let n = topic.unicode_len();
        let mut i: usize = 0;
        while i < n
            invariant
                0 <= i <= n,
                n == topic@.len(),
                topic@.len() > 0,
                vstd::utf8::encode_utf8(topic@).len() <= 65535,
                !vstd::utf8::encode_utf8(topic@).contains(0u8),
                forall|j: int| 0 <= j < i ==> topic@[j] != '#' && topic@[j] != '+',
            decreases n - i,
        {
            let c = topic.get_char(i);
            if c == '#' || c == '+' {
                proof {
                    assert(topic@.contains(topic@[i as int]));
                }
                return Err(TopicError::InvalidChar);
            }
            i += 1;
        }
        proof {
            if topic@.contains('#') {
                let j = choose|j: int| 0 <= j < topic@.len() && topic@[j] == '#';
                assert(topic@[j] != '#');
            }
            if topic@.contains('+') {
                let j = choose|j: int| 0 <= j < topic@.len() && topic@[j] == '+';
                assert(topic@[j] != '+');
            }
        }
        Ok(())
    }
}

impl PartialEq for Topic {
    fn eq(&self, other: &Self) -> (r: bool) {
        str_eq(self.topic.as_str(), other.topic.as_str())
    }
}

impl vstd::std_specs::cmp::PartialEqSpecImpl for Topic {
    open spec fn obeys_eq_spec() -> bool {
        true
    }

    open spec fn eq_spec(&self, other: &Topic) -> bool {
        self.spec_topic() == other.spec_topic()
    }
}

} // verus!
