//! Tag names as the tagger writes them: underscores dropped, except in the
//! emoticons whose underscore is part of the face.

use vstd::prelude::*;

verus! {

/// The emoticon tags, which keep their underscores.
pub open spec fn kaomoji_table() -> Seq<Seq<char>> {
    seq![
        "0_0"@,
        "(o)_(o)"@,
        "+_+"@,
        "+_-"@,
        "._."@,
        "<o>_<o>"@,
        "<|>_<|>"@,
        "=_="@,
        ">_<"@,
        "3_3"@,
        "6_9"@,
        ">_o"@,
        "@_@"@,
        "^_^"@,
        "o_o"@,
        "u_u"@,
        "x_x"@,
        "|_|"@,
        "||_||"@,
    ]
}

/// `name` is one of the emoticon tags.
pub open spec fn is_kaomoji(name: Seq<char>) -> bool {
    kaomoji_table().contains(name)
}

/// Keeps every character but the underscore.
pub open spec fn not_underscore() -> spec_fn(char) -> bool {
    |c: char| c != '_'
}

/// `name` with every underscore taken out.
pub open spec fn strip_underscores(name: Seq<char>) -> Seq<char> {
    name.filter(not_underscore())
}

/// The written form of a tag name: an emoticon as it is, any other name
/// without its underscores.
pub open spec fn normalized(name: Seq<char>) -> Seq<char> {
    if is_kaomoji(name) {
        name
    } else {
        strip_underscores(name)
    }
}

/// The emoticon tags as owned strings, in the order of `kaomoji_table`.
pub fn kaomojis() -> (table: Vec<String>)
    ensures
        table.deep_view() == kaomoji_table(),
{
    let mut table: Vec<String> = Vec::with_capacity(19);
    table.push("0_0".to_owned());
    table.push("(o)_(o)".to_owned());
    table.push("+_+".to_owned());
    table.push("+_-".to_owned());
    table.push("._.".to_owned());
    table.push("<o>_<o>".to_owned());
    table.push("<|>_<|>".to_owned());
    table.push("=_=".to_owned());
    table.push(">_<".to_owned());
    table.push("3_3".to_owned());
    table.push("6_9".to_owned());
    table.push(">_o".to_owned());
    table.push("@_@".to_owned());
    table.push("^_^".to_owned());
    table.push("o_o".to_owned());
    table.push("u_u".to_owned());
    table.push("x_x".to_owned());
    table.push("|_|".to_owned());
    table.push("||_||".to_owned());
    assert(table.deep_view() =~= kaomoji_table());
    table
}

/// Tells whether `name` is among the strings of `table`.
pub fn listed(table: &Vec<String>, name: &String) -> (found: bool)
    ensures
        found == table.deep_view().contains(name@),
{
    let mut i: usize = 0;
    while i < table.len()
        invariant
            i <= table.len(),
            forall|j: int| 0 <= j < i ==> table.deep_view()[j] != name@,
        decreases table.len() - i,
    {
        if table[i] == *name {
            assert(table.deep_view()[i as int] == name@);
            return true;
        }
        i += 1;
    }
    false
}

/// `str::replace` with the pattern `'_'` and an empty replacement. The
/// contract takes from its documentation that every match of the pattern is
/// replaced and the rest copied: what comes back is `name` without its
/// underscores, the other characters in their order.
#[verifier::external_body]
fn without_underscores(name: &str) -> (r: String)
    ensures
        r@ == strip_underscores(name@),
{
    name.replace('_', "")
}

/// Writes a tag name in its normalized form, given the emoticon table.
pub fn normalize_with(table: &Vec<String>, name: String) -> (r: String)
    requires
        table.deep_view() == kaomoji_table(),
    ensures
        r@ == normalized(name@),
{
    if listed(table, &name) {
        name
    } else {
        without_underscores(name.as_str())
    }
}

/// Writes a tag name in its normalized form.
pub fn normalize_tag(name: &str) -> (r: String)
    ensures
        r@ == normalized(name@),
{
    let table = kaomojis();
    normalize_with(&table, name.to_owned())
}

/// Every emoticon tag holds an underscore.
pub proof fn lemma_kaomoji_has_underscore(name: Seq<char>)
    requires
        is_kaomoji(name),
    ensures
        name.contains('_'),
{
    reveal_strlit("0_0");
    reveal_strlit("(o)_(o)");
    reveal_strlit("+_+");
    reveal_strlit("+_-");
    reveal_strlit("._.");
    reveal_strlit("<o>_<o>");
    reveal_strlit("<|>_<|>");
    reveal_strlit("=_=");
    reveal_strlit(">_<");
    reveal_strlit("3_3");
    reveal_strlit("6_9");
    reveal_strlit(">_o");
    reveal_strlit("@_@");
    reveal_strlit("^_^");
    reveal_strlit("o_o");
    reveal_strlit("u_u");
    reveal_strlit("x_x");
    reveal_strlit("|_|");
    reveal_strlit("||_||");
    let t = kaomoji_table();
    let i = choose|i: int| 0 <= i < t.len() && t[i] == name;
    if i == 1 {
        assert(name[3] == '_');
    } else if i == 5 || i == 6 {
        assert(name[3] == '_');
    } else if i == 18 {
        assert(name[2] == '_');
    } else {
        assert(name[1] == '_');
    }
}

/// Stripping leaves no underscore behind, and changes nothing in a name
/// that has none.
pub proof fn lemma_strip_underscores(name: Seq<char>)
    ensures
        !strip_underscores(name).contains('_'),
        !name.contains('_') ==> strip_underscores(name) == name,
    decreases name.len(),
{
    reveal(Seq::filter);
    let p = not_underscore();
    if name.len() > 0 {
        let rest = name.drop_last();
        lemma_strip_underscores(rest);
        let stripped = rest.filter(p);
        if p(name.last()) {
            assert forall|i: int| 0 <= i < stripped.push(name.last()).len() implies stripped.push(
                name.last(),
            )[i] != '_' by {
                if i < stripped.len() {
                    assert(stripped.contains(stripped[i]));
                }
            }
        }
        if !name.contains('_') {
            assert forall|i: int| 0 <= i < rest.len() implies rest[i] != '_' by {
                assert(name.contains(name[i]));
            }
            assert(name.contains(name.last()));
            assert(stripped.push(name.last()) =~= name);
        }
    }
}

/// Normalizing a name that is already normalized changes nothing.
pub proof fn lemma_normalize_idempotent(name: Seq<char>)
    ensures
        normalized(normalized(name)) == normalized(name),
{
    if !is_kaomoji(name) {
        let once = strip_underscores(name);
        lemma_strip_underscores(name);
        lemma_strip_underscores(once);
        if is_kaomoji(once) {
            lemma_kaomoji_has_underscore(once);
        }
    }
}

/// An emoticon tag is written as it is.
pub proof fn lemma_kaomoji_unchanged(name: Seq<char>)
    requires
        is_kaomoji(name),
    ensures
        normalized(name) == name,
{
}

} // verus!
