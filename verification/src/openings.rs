//! What stands before the root of a document and behind it.

use vstd::prelude::*;

use crate::config::ConfigModel;
use crate::declaration::{
    declaration_rest, declared_version, encoding_name, pseudo_attribute, pseudo_value_close,
    version_number,
};
use crate::document::{mark_end, misc_nodes, parsed, prolog};
use crate::dom::NodeModel;
use crate::entities::{first_bad_char, table_resolver};
use crate::error::{ErrorKindModel, FaultModel};
use crate::forms::{
    blank_char, blanks, hyphened, lemma_at, lemma_blanks_are_passed, lemma_comment_form,
};
use crate::grammar::{element, RawTree};
use crate::lexeme::{normalized, XmlVersion};
use crate::scan::keyword_at;
use crate::syntax::{name_part, valid_name, xml10_char};
use crate::text::starts_at;
use crate::unescape::{lemma_name_read, lemma_starts_char, lemma_starts_split};

verus! {

proof fn lemma_close(s: Seq<char>, i: int, j: int, q: char)
    requires
        0 <= i <= j < s.len(),
        s[j] == q,
        forall|k: int|
            i <= k < j ==> #[trigger] s[k] != q && !blank_char(s[k], XmlVersion::Xml10) && s[k]
                != '<' && s[k] != '&',
    ensures
        pseudo_value_close(s, i, q) == Some(j),
    decreases j - i,
{
    if i < j {
        lemma_close(s, i + 1, j, q);
    }
}

/// A name and a value in an XML declaration: an equals sign between them, white space on both
/// sides of it, and the value between two quotes of the same kind.
pub open spec fn setting(
    name: Seq<char>,
    a: Seq<char>,
    b: Seq<char>,
    q: char,
    t: Seq<char>,
) -> Seq<char> {
    name + (a + (seq!['='] + (b + (seq![q] + (t + seq![q])))))
}

/// The value of a setting is what is between the quotes.
pub proof fn lemma_setting_is_read(
    s: Seq<char>,
    i: int,
    name: Seq<char>,
    a: Seq<char>,
    b: Seq<char>,
    q: char,
    t: Seq<char>,
)
    requires
        starts_at(s, i, setting(name, a, b, q, t)),
        blanks(a, XmlVersion::Xml10),
        blanks(b, XmlVersion::Xml10),
        q == '"' || q == '\'',
        forall|k: int|
            0 <= k < t.len() ==> #[trigger] t[k] != q && !blank_char(t[k], XmlVersion::Xml10)
                && t[k] != '<' && t[k] != '&',
    ensures
        ({
            let at = i + name.len() + a.len() + b.len() + 2;
            &&& keyword_at(s, i, name)
            &&& pseudo_attribute(s, i, name) == Some((at, at + t.len()))
            &&& s.subrange(at, at + t.len()) == t
            &&& at + t.len() < s.len()
        }),
{
    let v = XmlVersion::Xml10;
    let e = seq!['='];
    let o = seq![q];
    lemma_starts_split(s, i, name, a + (e + (b + (o + (t + o)))));
    let i1 = i + name.len();
    lemma_starts_split(s, i1, a, e + (b + (o + (t + o))));
    let i2 = i1 + a.len();
    lemma_starts_split(s, i2, e, b + (o + (t + o)));
    let i3 = i2 + 1;
    lemma_starts_split(s, i3, b, o + (t + o));
    let i4 = i3 + b.len();
    lemma_starts_split(s, i4, o, t + o);
    let i5 = i4 + 1;
    lemma_starts_split(s, i5, t, o);
    let end = i5 + t.len();
    lemma_starts_char(s, i2, '=');
    lemma_starts_char(s, i4, q);
    lemma_starts_char(s, end, q);
    lemma_at(s, i1, a);
    lemma_at(s, i3, b);
    lemma_at(s, i5, t);
    if a.len() > 0 {
        assert(s[i1] == a[0]);
        lemma_blank_apart(s[i1]);
    }
    lemma_blank_apart('=');
    lemma_blank_apart(q);
    assert forall|k: int| i1 <= k < i2 implies blank_char(#[trigger] s[k], v) by {
        assert(s[k] == a[k - i1]);
    }
    lemma_blanks_are_passed(s, i1, i2, v);
    assert forall|k: int| i3 <= k < i4 implies blank_char(#[trigger] s[k], v) by {
        assert(s[k] == b[k - i3]);
    }
    lemma_blanks_are_passed(s, i3, i4, v);
    assert forall|k: int| i5 <= k < end implies #[trigger] s[k] != q && !blank_char(s[k], v) && s[k]
        != '<' && s[k] != '&' by {
        assert(s[k] == t[k - i5]);
    }
    lemma_close(s, i5, end, q);
}

proof fn lemma_blank_apart(c: char)
    ensures
        blank_char(c, XmlVersion::Xml10) ==> !name_part(c) && c != '=' && c != '"' && c != '\'',
        c == '=' ==> !name_part(c) && !blank_char(c, XmlVersion::Xml10),
        c == '"' || c == '\'' ==> !blank_char(c, XmlVersion::Xml10),
{
}

/// The versions: `1.0` and `1.1`, and any other with a one before the dot is read as the first.
pub proof fn lemma_versions(s: Seq<char>)
    ensures
        version_number(seq!['1', '.', '1']) == Some(XmlVersion::Xml11),
        version_number(s) == Some(XmlVersion::Xml11) ==> s == seq!['1', '.', '1'],
        version_number(s) == Some(XmlVersion::Xml10) <==> {
            &&& s.len() > 2 && s[0] == '1' && s[1] == '.'
            &&& s != seq!['1', '.', '1']
            &&& forall|k: int| 2 <= k < s.len() ==> '0' <= #[trigger] s[k] && s[k] <= '9'
        },
{
    reveal_strlit("1.1");
    reveal_strlit("1.");
    assert("1.1"@ =~= seq!['1', '.', '1']);
    assert("1."@ =~= seq!['1', '.']);
    if starts_at(s, 0, "1."@) {
        lemma_at(s, 0, "1."@);
        assert(s[0] == "1."@[0]);
        assert(s[1] == "1."@[1]);
    }
    if s.len() > 2 && s[0] == '1' && s[1] == '.' {
        assert(s.subrange(0, 2) =~= "1."@);
    }
}

/// The settings of an XML declaration: the version comes first, then the encoding, then whether
/// the document stands alone; each at most once, behind white space, and nothing else.
pub proof fn lemma_declaration_settings(
    s: Seq<char>,
    i: int,
    j: int,
    a: Seq<char>,
    b: Seq<char>,
    q: char,
    t: Seq<char>,
    encoding: bool,
    standalone: bool,
)
    requires
        0 <= i <= j <= s.len(),
        forall|k: int| i <= k < j ==> blank_char(#[trigger] s[k], XmlVersion::Xml10),
        j < s.len() ==> !blank_char(s[j], XmlVersion::Xml10),
        blanks(a, XmlVersion::Xml10),
        blanks(b, XmlVersion::Xml10),
        q == '"' || q == '\'',
        forall|k: int|
            0 <= k < t.len() ==> #[trigger] t[k] != q && !blank_char(t[k], XmlVersion::Xml10)
                && t[k] != '<' && t[k] != '&',
    ensures
        j == s.len() ==> declaration_rest(s, i, encoding, standalone),
        i == j < s.len() ==> !declaration_rest(s, i, encoding, standalone),
        i < j && starts_at(s, j, setting("encoding"@, a, b, q, t)) ==> declaration_rest(
            s,
            i,
            encoding,
            standalone,
        ) == (!encoding && !standalone && encoding_name(t) && declaration_rest(
            s,
            11int + j + a.len() + b.len() + t.len(),
            true,
            false,
        )),
        i < j && starts_at(s, j, setting("standalone"@, a, b, q, t)) ==> declaration_rest(
            s,
            i,
            encoding,
            standalone,
        ) == (!standalone && (t == "yes"@ || t == "no"@) && declaration_rest(
            s,
            13int + j + a.len() + b.len() + t.len(),
            encoding,
            true,
        )),
{
    reveal_strlit("encoding");
    reveal_strlit("standalone");
    lemma_blanks_are_passed(s, i, j, XmlVersion::Xml10);
    if starts_at(s, j, setting("encoding"@, a, b, q, t)) {
        lemma_setting_is_read(s, j, "encoding"@, a, b, q, t);
    }
    if starts_at(s, j, setting("standalone"@, a, b, q, t)) {
        lemma_setting_is_read(s, j, "standalone"@, a, b, q, t);
        lemma_at(s, j, "standalone"@);
        assert(s[j] == "standalone"@[0]);
        if starts_at(s, j, "encoding"@) {
            lemma_at(s, j, "encoding"@);
            assert(s[j] == "encoding"@[0]);
        }
    }
}

/// A declaration without a version that is known is none, and the version that it declares is its
/// first setting.
pub proof fn lemma_declared_versions(
    s: Seq<char>,
    a: Seq<char>,
    b: Seq<char>,
    q: char,
    t: Seq<char>,
)
    requires
        starts_at(s, 0, setting("version"@, a, b, q, t)),
        blanks(a, XmlVersion::Xml10),
        blanks(b, XmlVersion::Xml10),
        q == '"' || q == '\'',
        forall|k: int|
            0 <= k < t.len() ==> #[trigger] t[k] != q && !blank_char(t[k], XmlVersion::Xml10)
                && t[k] != '<' && t[k] != '&',
    ensures
        declared_version(s) == (if declaration_rest(
            s,
            10int + a.len() + b.len() + t.len(),
            false,
            false,
        ) {
            version_number(t)
        } else {
            None
        }),
{
    reveal_strlit("version");
    lemma_setting_is_read(s, 0, "version"@, a, b, q, t);
}

/// The name of an encoding: a letter, then letters, digits, dots, underscores and hyphens.
pub proof fn lemma_encoding_names(s: Seq<char>)
    ensures
        encoding_name(s) <==> {
            &&& s.len() > 0
            &&& 'a' <= s[0] <= 'z' || 'A' <= s[0] <= 'Z'
            &&& forall|k: int|
                0 < k < s.len() ==> ('a' <= #[trigger] s[k] && s[k] <= 'z') || ('A' <= s[k] && s[k]
                    <= 'Z') || ('0' <= s[k] && s[k] <= '9') || s[k] == '.' || s[k] == '_' || s[k]
                    == '-'
        },
{
}

/// Beside the root white space is passed, and what is neither a comment nor an instruction ends
/// the nodes there.
pub proof fn lemma_end_of_the_nodes(
    s: Seq<char>,
    i: int,
    j: int,
    c: ConfigModel,
    v: XmlVersion,
    acc: Seq<NodeModel>,
)
    requires
        0 <= i <= j <= s.len(),
        forall|k: int| i <= k < j ==> blank_char(#[trigger] s[k], v),
        j < s.len() ==> !blank_char(s[j], v),
        j == s.len() || s[j] != '<' || (j + 1 < s.len() && s[j + 1] != '!' && s[j + 1] != '?'),
    ensures
        misc_nodes(s, i, c, v, acc) == Ok::<(Seq<NodeModel>, int), FaultModel>((acc, j)),
{
    lemma_blanks_are_passed(s, i, j, v);
    reveal_strlit("<!--");
    reveal_strlit("<?");
    if starts_at(s, j, "<!--"@) {
        lemma_at(s, j, "<!--"@);
        assert(s[j] == "<!--"@[0]);
        assert(s[j + 1] == "<!--"@[1]);
    }
    if starts_at(s, j, "<?"@) {
        lemma_at(s, j, "<?"@);
        assert(s[j] == "<?"@[0]);
        assert(s[j + 1] == "<?"@[1]);
    }
}

/// Beside the root a comment is a node if comments are kept, and what is behind it is read on.
pub proof fn lemma_comment_outside_the_root(
    s: Seq<char>,
    i: int,
    j: int,
    t: Seq<char>,
    c: ConfigModel,
    v: XmlVersion,
    acc: Seq<NodeModel>,
)
    requires
        0 <= i <= j < s.len(),
        forall|k: int| i <= k < j ==> blank_char(#[trigger] s[k], v),
        !blank_char(s[j], v),
        starts_at(s, j, "<!--"@ + t + "-->"@),
        !hyphened(t),
        forall|k: int|
            j + 4 <= k < j + 4 + t.len() ==> !(#[trigger] s[k] == '-' && s[k + 1] == '-' && s[k + 2]
                == '>'),
    ensures
        misc_nodes(s, i, c, v, acc) == misc_nodes(
            s,
            7int + j + t.len(),
            c,
            v,
            if c.preserve_comments {
                acc.push(NodeModel::Comment(normalized(t, v, false)))
            } else {
                acc
            },
        ),
{
    lemma_blanks_are_passed(s, i, j, v);
    lemma_comment_form(s, j, t, c, v);
    reveal_strlit("<!--");
    reveal_strlit("-->");
    lemma_starts_split(s, j, "<!--"@ + t, "-->"@);
    lemma_starts_split(s, j, "<!--"@, t);
    lemma_at(s, j + 4, t);
    lemma_at(s, j + 4 + t.len(), "-->"@);
}

proof fn lemma_no_bad(s: Seq<char>, i: int)
    requires
        0 <= i <= s.len(),
        forall|k: int| 0 <= k < s.len() ==> xml10_char(#[trigger] s[k]),
    ensures
        first_bad_char(s, i, XmlVersion::Xml10) is None,
    decreases s.len() - i,
{
    if i < s.len() {
        lemma_no_bad(s, i + 1);
    }
}

/// A text of nothing but white space has no root.
pub proof fn lemma_missing_root(s: Seq<char>, c: ConfigModel)
    requires
        blanks(s, XmlVersion::Xml10),
    ensures
        parsed(s, c) == Err::<crate::document::DocumentModel, FaultModel>(
            FaultModel { kind: ErrorKindModel::MissingRootElement, at: s.len() as int },
        ),
{
    let v = XmlVersion::Xml10;
    if s.len() > 0 {
        assert(blank_char(s[0], v));
    }
    lemma_no_mark(s);
    assert forall|k: int| 0 <= k < s.len() implies xml10_char(#[trigger] s[k]) by {
        assert(blank_char(s[k], v));
        lemma_blank_is_character(s[k]);
    }
    lemma_no_bad(s, 0);
    lemma_end_of_the_nodes(s, 0, s.len() as int, c, v, Seq::empty());
}

proof fn lemma_blank_is_character(c: char)
    requires
        blank_char(c, XmlVersion::Xml10),
    ensures
        xml10_char(c),
{
}

proof fn lemma_no_mark(s: Seq<char>)
    requires
        s.len() > 0 ==> blank_char(s[0], XmlVersion::Xml10),
    ensures
        mark_end(s) == 0,
        !crate::document::declaration_at(s, 0),
{
    reveal_strlit("<?xml");
    if starts_at(s, 0, "<?xml"@) {
        lemma_at(s, 0, "<?xml"@);
        assert(s[0] == "<?xml"@[0]);
    }
}

/// Behind the root there can be white space, comments and instructions; anything else is refused
/// where it stands.
pub proof fn lemma_behind_the_root(
    s: Seq<char>,
    n: Seq<char>,
    a: Seq<char>,
    rest: Seq<char>,
    c: ConfigModel,
)
    requires
        valid_name(n),
        blanks(a, XmlVersion::Xml10),
        s == seq!['<'] + n + seq!['/', '>'] + a + rest,
        rest.len() > 0 ==> !blank_char(rest[0], XmlVersion::Xml10) && rest[0] != '<',
        forall|k: int| 0 <= k < s.len() ==> xml10_char(#[trigger] s[k]),
    ensures
        rest.len() > 0 ==> parsed(s, c) == Err::<crate::document::DocumentModel, FaultModel>(
            FaultModel {
                kind: ErrorKindModel::TrailingContent,
                at: 3int + n.len() + a.len(),
            },
        ),
        rest.len() == 0 ==> (parsed(s, c) matches Ok(m) && {
            &&& m.text == s
            &&& m.root == (RawTree::Element {
                span: (0, 3int + n.len()),
                name: (1, 1int + n.len()),
                attributes: Seq::empty(),
                children: Seq::empty(),
            })
            &&& m.before.len() == 0
            &&& m.after.len() == 0
            &&& m.declaration is None
            &&& m.doctype is None
        }),
{
    let v = XmlVersion::Xml10;
    let e = 3int + n.len();
    let j = e + a.len();
    lemma_pieces(s, n, a, rest);
    lemma_plain_start(s, n, c);
    let p = prolog(s, c, true)->Ok_0;
    lemma_lone_element(s, n, c, table_resolver(p.entities, c.entity_expansion, v));
    lemma_end_of_the_nodes(s, e, j, c, v, Seq::empty());
}

proof fn lemma_pieces(s: Seq<char>, n: Seq<char>, a: Seq<char>, rest: Seq<char>)
    requires
        s == seq!['<'] + n + seq!['/', '>'] + a + rest,
        blanks(a, XmlVersion::Xml10),
        rest.len() > 0 ==> !blank_char(rest[0], XmlVersion::Xml10) && rest[0] != '<',
    ensures
        s.len() == n.len() + 3 + a.len() + rest.len(),
        s[0] == '<',
        s.subrange(1, 1int + n.len()) == n,
        s[1int + n.len()] == '/',
        s[2int + n.len()] == '>',
        ({
            let e = 3int + n.len();
            let j = e + a.len();
            &&& forall|k: int| e <= k < j ==> blank_char(#[trigger] s[k], XmlVersion::Xml10)
            &&& j < s.len() ==> !blank_char(s[j], XmlVersion::Xml10) && s[j] != '<'
        }),
{
    let e = 3int + n.len();
    let j = e + a.len();
    assert(s.subrange(1, 1int + n.len()) =~= n);
    assert forall|k: int| e <= k < j implies blank_char(#[trigger] s[k], XmlVersion::Xml10) by {
        assert(s[k] == a[k - e]);
    }
    if rest.len() > 0 {
        assert(s[j] == rest[0]);
    }
}

proof fn lemma_plain_start(s: Seq<char>, n: Seq<char>, c: ConfigModel)
    requires
        valid_name(n),
        s.len() >= n.len() + 3,
        s[0] == '<',
        s.subrange(1, 1int + n.len()) == n,
        forall|k: int| 0 <= k < s.len() ==> xml10_char(#[trigger] s[k]),
    ensures
        prolog(s, c, true) matches Ok(p) && {
            &&& p.declaration is None
            &&& p.version == XmlVersion::Xml10
            &&& p.misc.len() == 0
            &&& p.doctype is None
            &&& p.at == 0
        },
{
    lemma_tag_starts(s, n);
    lemma_no_bad(s, 0);
    lemma_end_of_the_nodes(s, 0, 0, c, XmlVersion::Xml10, Seq::empty());
}

proof fn lemma_tag_starts(s: Seq<char>, n: Seq<char>)
    requires
        valid_name(n),
        s.len() >= n.len() + 3,
        s[0] == '<',
        s.subrange(1, 1int + n.len()) == n,
    ensures
        mark_end(s) == 0,
        !crate::document::declaration_at(s, 0),
        !blank_char(s[0], XmlVersion::Xml10),
        s[1] == n[0],
        s[1] != '!' && s[1] != '?' && s[1] != '/',
        !starts_at(s, 0, "<!DOCTYPE"@),
{
    reveal_strlit("<?xml");
    reveal_strlit("<!DOCTYPE");
    assert(s.subrange(1, 1int + n.len())[0] == s[1]);
    lemma_name_begins(n[0]);
    if starts_at(s, 0, "<?xml"@) {
        lemma_at(s, 0, "<?xml"@);
        assert(s[1] == "<?xml"@[1]);
    }
    if starts_at(s, 0, "<!DOCTYPE"@) {
        lemma_at(s, 0, "<!DOCTYPE"@);
        assert(s[1] == "<!DOCTYPE"@[1]);
    }
}

proof fn lemma_name_begins(c: char)
    requires
        crate::syntax::name_start(c),
    ensures
        c != '!' && c != '?' && c != '/',
{
}

proof fn lemma_lone_element(
    s: Seq<char>,
    n: Seq<char>,
    c: ConfigModel,
    r: crate::grammar::Resolver,
)
    requires
        valid_name(n),
        s.len() >= n.len() + 3,
        s[0] == '<',
        s.subrange(1, 1int + n.len()) == n,
        s[1int + n.len()] == '/',
        s[2int + n.len()] == '>',
    ensures
        element(s, 0, c, XmlVersion::Xml10, r, 1, 0) == Ok::<(RawTree, int, int), FaultModel>(
            (
                RawTree::Element {
                    span: (0, 3int + n.len()),
                    name: (1, 1int + n.len()),
                    attributes: Seq::empty(),
                    children: Seq::empty(),
                },
                3int + n.len(),
                0,
            ),
        ),
{
    let v = XmlVersion::Xml10;
    let e = 1int + n.len();
    reveal_strlit("<");
    reveal_strlit("/>");
    assert("<"@ =~= seq!['<']);
    assert("/>"@ =~= seq!['/', '>']);
    lemma_starts_char(s, 0, '<');
    lemma_slash();
    lemma_name_read(s, 1, n);
    crate::forms::lemma_attributes_in_a_row(s, e, e, c, v, r, Seq::empty(), 0);
    assert(s.subrange(e, e + 2) =~= "/>"@);
}

proof fn lemma_slash()
    ensures
        !name_part('/'),
        !blank_char('/', XmlVersion::Xml10),
{
}

} // verus!
