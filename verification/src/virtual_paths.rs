//! The two tokens that stand for the server's directories in stored paths, and
//! their expansion.

use vstd::prelude::*;

use crate::text;

verus! {

/// The token for the data directory.
pub const VIRTUAL_DATA_PATH: &'static str = "%AppDataPath%";

/// The token for the metadata directory.
pub const VIRTUAL_INTERNAL_METADATA_PATH: &'static str = "%MetadataPath%";

/// `haystack` from position `at` on, with every occurrence of `from`, up to the
/// case of ASCII letters, replaced by `to`, going from left to right.
pub open spec fn replaced_from(haystack: Seq<char>, from: Seq<char>, to: Seq<char>, at: int) -> Seq<
    char,
>
    decreases haystack.len() - at,
{
    if at < 0 || at >= haystack.len() {
        Seq::empty()
    } else if from.len() > 0 && text::occurs_at(haystack, from, at) {
        to + replaced_from(haystack, from, to, at + from.len())
    } else {
        seq![haystack[at]] + replaced_from(haystack, from, to, at + 1)
    }
}

/// `haystack` with every occurrence of `from`, up to the case of ASCII letters,
/// replaced by `to`. Nothing is replaced where `from` is empty.
pub open spec fn replaced(haystack: Seq<char>, from: Seq<char>, to: Seq<char>) -> Seq<char> {
    replaced_from(haystack, from, to, 0)
}

/// Replaces every occurrence of `from`, up to the case of ASCII letters, by
/// `to`. An empty `from` is found nowhere; an empty `to` deletes.
pub fn replace_ignore_ascii_case(haystack: &str, from: &str, to: &str) -> (result: String)
    ensures
        result@ == replaced(haystack@, from@, to@),
{
    let chars: Vec<char> = text::chars_of(haystack);
    let wanted: Vec<char> = text::chars_of(from);
    let mut result: String = String::new();
    let mut at: usize = 0;
    assert(result@ + replaced_from(haystack@, from@, to@, 0) =~= replaced(haystack@, from@, to@));
    while at < chars.len()
        invariant
            chars@ == haystack@,
            wanted@ == from@,
            at <= chars@.len(),
            result@ + replaced_from(haystack@, from@, to@, at as int) == replaced(
                haystack@,
                from@,
                to@,
            ),
        decreases chars@.len() - at,
    {
        let ghost before = result@;
        let ghost rest = replaced_from(haystack@, from@, to@, at as int);
        if wanted.len() > 0 && text::find_at(&chars, &wanted, at) {
            result.append(to);
            assert(at + wanted.len() <= chars.len());
            at = at + wanted.len();
        } else {
            result.push(chars[at]);
            at = at + 1;
        }
        assert(result@ + replaced_from(haystack@, from@, to@, at as int) =~= before + rest);
    }
    assert(result@ + replaced_from(haystack@, from@, to@, at as int) =~= result@);
    result
}

/// `path` with `token` replaced by a directory, and as it is where there is no
/// directory for it.
pub open spec fn substituted(path: Seq<char>, token: Seq<char>, directory: Seq<char>) -> Seq<char> {
    if directory.len() == 0 {
        path
    } else {
        replaced(path, token, directory)
    }
}

/// `path` with both tokens replaced, the one for the data directory first.
pub open spec fn expanded(path: Seq<char>, data: Seq<char>, metadata: Seq<char>) -> Seq<char> {
    substituted(
        substituted(path, VIRTUAL_DATA_PATH@, data),
        VIRTUAL_INTERNAL_METADATA_PATH@,
        metadata,
    )
}

/// Expands the tokens to a server's directories.
#[derive(Debug, Clone)]
pub struct VirtualPathExpander {
    /// The data directory, or empty for no substitution.
    pub data: String,
    /// The metadata directory, or empty for no substitution.
    pub metadata: String,
}

impl Default for VirtualPathExpander {
    fn default() -> (expander: Self)
        ensures
            expander.data@.len() == 0,
            expander.metadata@.len() == 0,
    {
        VirtualPathExpander { data: String::new(), metadata: String::new() }
    }
}

impl VirtualPathExpander {
    /// An expander for these directories.
    pub fn from_paths(data_path: &str, internal_metadata_path: &str) -> (expander: Self)
        ensures
            expander.data@ == data_path@,
            expander.metadata@ == internal_metadata_path@,
    {
        VirtualPathExpander {
            data: data_path.to_owned(),
            metadata: internal_metadata_path.to_owned(),
        }
    }

    /// An expander that leaves every path alone.
    pub fn identity() -> (expander: Self)
        ensures
            expander.data@.len() == 0,
            expander.metadata@.len() == 0,
            forall|path: Seq<char>| #[trigger]
                expanded(path, expander.data@, expander.metadata@) == path,
    {
        VirtualPathExpander::default()
    }

    /// The path with both tokens replaced, whatever their case.
    pub fn expand(&self, path: &str) -> (result: String)
        ensures
            result@ == expanded(path@, self.data@, self.metadata@),
    {
        let data: String = if text::chars_of(self.data.as_str()).len() == 0 {
            path.to_owned()
        } else {
            replace_ignore_ascii_case(path, VIRTUAL_DATA_PATH, self.data.as_str())
        };
        if text::chars_of(self.metadata.as_str()).len() == 0 {
            data
        } else {
            replace_ignore_ascii_case(
                data.as_str(),
                VIRTUAL_INTERNAL_METADATA_PATH,
                self.metadata.as_str(),
            )
        }
    }

    /// [`VirtualPathExpander::expand`] of an optional path.
    pub fn expand_opt(&self, path: Option<&str>) -> (result: Option<String>)
        ensures
            match path {
                Some(text) => result matches Some(r) && r@ == expanded(
                    text@,
                    self.data@,
                    self.metadata@,
                ),
                None => result is None,
            },
    {
        match path {
            Some(text) => Some(self.expand(text)),
            None => None,
        }
    }
}

/// Where `from` does not occur, nothing is replaced.
pub proof fn law_absent_text_is_not_replaced(
    haystack: Seq<char>,
    from: Seq<char>,
    to: Seq<char>,
    at: int,
)
    requires
        0 <= at <= haystack.len(),
        forall|i: int| at <= i ==> !(#[trigger] text::occurs_at(haystack, from, i)),
    ensures
        replaced_from(haystack, from, to, at) == haystack.skip(at),
    decreases haystack.len() - at,
{
    if at < haystack.len() {
        law_absent_text_is_not_replaced(haystack, from, to, at + 1);
        assert(seq![haystack[at]] + haystack.skip(at + 1) =~= haystack.skip(at));
    } else {
        assert(haystack.skip(at) =~= Seq::<char>::empty());
    }
}

/// A path in which neither token occurs passes through unchanged.
pub proof fn law_resolved_paths_pass_through(
    path: Seq<char>,
    data: Seq<char>,
    metadata: Seq<char>,
)
    requires
        !text::occurs_in(path, VIRTUAL_DATA_PATH@),
        !text::occurs_in(path, VIRTUAL_INTERNAL_METADATA_PATH@),
    ensures
        expanded(path, data, metadata) == path,
{
    law_absent_text_is_not_replaced(path, VIRTUAL_DATA_PATH@, data, 0);
    law_absent_text_is_not_replaced(path, VIRTUAL_INTERNAL_METADATA_PATH@, metadata, 0);
    assert(path.skip(0) =~= path);
}

/// A text that begins with `from`, which does not occur behind that, has its
/// beginning replaced and the rest kept.
pub proof fn law_leading_text_is_replaced(from: Seq<char>, to: Seq<char>, rest: Seq<char>)
    requires
        from.len() > 0,
        forall|i: int|
            from.len() <= i ==> !(#[trigger] text::occurs_at(from + rest, from, i)),
    ensures
        replaced(from + rest, from, to) == to + rest,
{
    let haystack = from + rest;
    assert(haystack.subrange(0, from.len() as int) =~= from);
    text::lemma_same_ignoring_case_reflexive(from);
    law_absent_text_is_not_replaced(haystack, from, to, from.len() as int);
    assert(haystack.skip(from.len() as int) =~= rest);
}

/// The text of `path` with the server's directories replaced by their tokens.
pub open spec fn reversed(path: Seq<char>, data: Seq<char>, metadata: Seq<char>) -> Seq<char> {
    replaced(
        replaced(path, data, VIRTUAL_DATA_PATH@),
        metadata,
        VIRTUAL_INTERNAL_METADATA_PATH@,
    )
}

/// A path below the data directory comes back as it was stored when it is
/// expanded and reversed, provided that neither token nor directory occurs in
/// it anywhere else.
pub proof fn law_expand_and_reverse_round_trip(
    rest: Seq<char>,
    data: Seq<char>,
    metadata: Seq<char>,
)
    requires
        data.len() > 0,
        forall|i: int|
            VIRTUAL_DATA_PATH@.len() <= i ==> !(#[trigger] text::occurs_at(
                VIRTUAL_DATA_PATH@ + rest,
                VIRTUAL_DATA_PATH@,
                i,
            )),
        !text::occurs_in(data + rest, VIRTUAL_INTERNAL_METADATA_PATH@),
        forall|i: int| data.len() <= i ==> !(#[trigger] text::occurs_at(data + rest, data, i)),
        metadata.len() > 0,
        !text::occurs_in(VIRTUAL_DATA_PATH@ + rest, metadata),
    ensures
        expanded(VIRTUAL_DATA_PATH@ + rest, data, metadata) == data + rest,
        resolved(VIRTUAL_DATA_PATH@ + rest, data, metadata) == data + rest,
        reversed(data + rest, data, metadata) == VIRTUAL_DATA_PATH@ + rest,
{
    reveal_strlit("%AppDataPath%");
    law_leading_text_is_replaced(VIRTUAL_DATA_PATH@, data, rest);
    law_absent_text_is_not_replaced(data + rest, VIRTUAL_INTERNAL_METADATA_PATH@, metadata, 0);
    assert((data + rest).skip(0) =~= data + rest);
    law_leading_text_is_replaced(data, VIRTUAL_DATA_PATH@, rest);
    law_absent_text_is_not_replaced(
        VIRTUAL_DATA_PATH@ + rest,
        metadata,
        VIRTUAL_INTERNAL_METADATA_PATH@,
        0,
    );
    assert((VIRTUAL_DATA_PATH@ + rest).skip(0) =~= VIRTUAL_DATA_PATH@ + rest);
}

/// `path` with both tokens replaced by a server's directories, the one for the
/// data directory first. An empty directory takes its token away.
pub open spec fn resolved(path: Seq<char>, data: Seq<char>, metadata: Seq<char>) -> Seq<char> {
    replaced(
        replaced(path, VIRTUAL_DATA_PATH@, data),
        VIRTUAL_INTERNAL_METADATA_PATH@,
        metadata,
    )
}

/// A text that stands in another one just once, in any case, is replaced there;
/// what stands before and behind it is kept.
pub proof fn law_single_text_is_replaced(
    before: Seq<char>,
    found: Seq<char>,
    behind: Seq<char>,
    from: Seq<char>,
    to: Seq<char>,
)
    requires
        from.len() > 0,
        text::same_ignoring_case(found, from),
        forall|i: int|
            i != before.len() ==> !(#[trigger] text::occurs_at(before + found + behind, from, i)),
    ensures
        replaced(before + found + behind, from, to) == before + to + behind,
{
    lemma_replaced_once(before, found, behind, from, to, 0);
    assert(before.skip(0) =~= before);
}

proof fn lemma_replaced_once(
    before: Seq<char>,
    found: Seq<char>,
    behind: Seq<char>,
    from: Seq<char>,
    to: Seq<char>,
    at: int,
)
    requires
        from.len() > 0,
        text::same_ignoring_case(found, from),
        0 <= at <= before.len(),
        forall|i: int|
            i != before.len() ==> !(#[trigger] text::occurs_at(before + found + behind, from, i)),
    ensures
        replaced_from(before + found + behind, from, to, at) == before.skip(at) + to + behind,
    decreases before.len() - at,
{
    let haystack = before + found + behind;
    if at < before.len() {
        lemma_replaced_once(before, found, behind, from, to, at + 1);
        assert(!text::occurs_at(haystack, from, at));
        assert(haystack[at] == before[at]);
        assert(seq![before[at]] + (before.skip(at + 1) + to + behind) =~= before.skip(at) + to + behind);
    } else {
        assert(haystack.subrange(at, at + from.len()) =~= found);
        assert(text::occurs_at(haystack, from, at));
        law_absent_text_is_not_replaced(haystack, from, to, at + from.len());
        assert(haystack.skip(at + from.len()) =~= behind);
        assert(before.skip(at) + to + behind =~= to + behind);
    }
}

/// Each token stands for its own directory: the one for data at the start of a
/// path gives a path below the data directory, the one for metadata one below
/// the metadata directory. Only the tokens that are there are replaced.
pub proof fn law_each_token_has_its_directory(
    rest: Seq<char>,
    data: Seq<char>,
    metadata: Seq<char>,
)
    requires
        data.len() > 0,
        metadata.len() > 0,
        forall|i: int|
            VIRTUAL_DATA_PATH@.len() <= i ==> !(#[trigger] text::occurs_at(
                VIRTUAL_DATA_PATH@ + rest,
                VIRTUAL_DATA_PATH@,
                i,
            )),
        !text::occurs_in(data + rest, VIRTUAL_INTERNAL_METADATA_PATH@),
        !text::occurs_in(VIRTUAL_INTERNAL_METADATA_PATH@ + rest, VIRTUAL_DATA_PATH@),
        forall|i: int|
            VIRTUAL_INTERNAL_METADATA_PATH@.len() <= i ==> !(#[trigger] text::occurs_at(
                VIRTUAL_INTERNAL_METADATA_PATH@ + rest,
                VIRTUAL_INTERNAL_METADATA_PATH@,
                i,
            )),
    ensures
        expanded(VIRTUAL_DATA_PATH@ + rest, data, metadata) == data + rest,
        resolved(VIRTUAL_DATA_PATH@ + rest, data, metadata) == data + rest,
        expanded(VIRTUAL_INTERNAL_METADATA_PATH@ + rest, data, metadata) == metadata + rest,
        resolved(VIRTUAL_INTERNAL_METADATA_PATH@ + rest, data, metadata) == metadata + rest,
        expanded(VIRTUAL_INTERNAL_METADATA_PATH@ + rest, data, Seq::empty())
            == VIRTUAL_INTERNAL_METADATA_PATH@ + rest,
        expanded(VIRTUAL_DATA_PATH@ + rest, Seq::empty(), Seq::empty()) == VIRTUAL_DATA_PATH@ + rest,
{
    reveal_strlit("%AppDataPath%");
    reveal_strlit("%MetadataPath%");
    law_leading_text_is_replaced(VIRTUAL_DATA_PATH@, data, rest);
    law_absent_text_is_not_replaced(data + rest, VIRTUAL_INTERNAL_METADATA_PATH@, metadata, 0);
    assert((data + rest).skip(0) =~= data + rest);
    let stored = VIRTUAL_INTERNAL_METADATA_PATH@ + rest;
    law_absent_text_is_not_replaced(stored, VIRTUAL_DATA_PATH@, data, 0);
    assert(stored.skip(0) =~= stored);
    law_leading_text_is_replaced(VIRTUAL_INTERNAL_METADATA_PATH@, metadata, rest);
}

/// The data token is replaced first: where the data directory is itself given
/// below the metadata token, that one is replaced as well.
pub proof fn law_data_token_is_replaced_first(
    below: Seq<char>,
    rest: Seq<char>,
    metadata: Seq<char>,
)
    requires
        metadata.len() > 0,
        forall|i: int|
            VIRTUAL_DATA_PATH@.len() <= i ==> !(#[trigger] text::occurs_at(
                VIRTUAL_DATA_PATH@ + rest,
                VIRTUAL_DATA_PATH@,
                i,
            )),
        forall|i: int|
            VIRTUAL_INTERNAL_METADATA_PATH@.len() <= i ==> !(#[trigger] text::occurs_at(
                VIRTUAL_INTERNAL_METADATA_PATH@ + (below + rest),
                VIRTUAL_INTERNAL_METADATA_PATH@,
                i,
            )),
    ensures
        expanded(
            VIRTUAL_DATA_PATH@ + rest,
            VIRTUAL_INTERNAL_METADATA_PATH@ + below,
            metadata,
        ) == metadata + below + rest,
        resolved(
            VIRTUAL_DATA_PATH@ + rest,
            VIRTUAL_INTERNAL_METADATA_PATH@ + below,
            metadata,
        ) == metadata + below + rest,
{
    reveal_strlit("%AppDataPath%");
    reveal_strlit("%MetadataPath%");
    let data = VIRTUAL_INTERNAL_METADATA_PATH@ + below;
    law_leading_text_is_replaced(VIRTUAL_DATA_PATH@, data, rest);
    assert(data + rest =~= VIRTUAL_INTERNAL_METADATA_PATH@ + (below + rest));
    law_leading_text_is_replaced(VIRTUAL_INTERNAL_METADATA_PATH@, metadata, below + rest);
    assert(metadata + (below + rest) =~= metadata + below + rest);
}

/// A path below one of the directories is stored under its own token.
pub proof fn law_each_directory_has_its_token(
    rest: Seq<char>,
    data: Seq<char>,
    metadata: Seq<char>,
)
    requires
        data.len() > 0,
        metadata.len() > 0,
        forall|i: int| data.len() <= i ==> !(#[trigger] text::occurs_at(data + rest, data, i)),
        !text::occurs_in(VIRTUAL_DATA_PATH@ + rest, metadata),
        !text::occurs_in(metadata + rest, data),
        forall|i: int|
            metadata.len() <= i ==> !(#[trigger] text::occurs_at(metadata + rest, metadata, i)),
    ensures
        reversed(data + rest, data, metadata) == VIRTUAL_DATA_PATH@ + rest,
        reversed(metadata + rest, data, metadata) == VIRTUAL_INTERNAL_METADATA_PATH@ + rest,
{
    law_leading_text_is_replaced(data, VIRTUAL_DATA_PATH@, rest);
    let stored = VIRTUAL_DATA_PATH@ + rest;
    law_absent_text_is_not_replaced(stored, metadata, VIRTUAL_INTERNAL_METADATA_PATH@, 0);
    assert(stored.skip(0) =~= stored);
    let below = metadata + rest;
    law_absent_text_is_not_replaced(below, data, VIRTUAL_DATA_PATH@, 0);
    assert(below.skip(0) =~= below);
    law_leading_text_is_replaced(metadata, VIRTUAL_INTERNAL_METADATA_PATH@, rest);
}

} // verus!
