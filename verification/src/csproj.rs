//! What a `.csproj` file says of its project.

use crate::pattern;
use crate::text;
use vstd::prelude::*;

verus! {

/// `csproj` belongs to an Aspire AppHost: it names the AppHost SDK, in either of the two ways to
/// name an SDK, or it refers to the hosting package.
pub open spec fn is_apphost(csproj: Seq<char>) -> bool {
    ||| text::occurs_in("Sdk=\"Aspire.AppHost.Sdk\""@, csproj)
    ||| text::occurs_in("Sdk='Aspire.AppHost.Sdk'"@, csproj)
    ||| text::occurs_in("<Sdk Name=\"Aspire.AppHost.Sdk\""@, csproj)
    ||| text::occurs_in("<Sdk Name='Aspire.AppHost.Sdk'"@, csproj)
    ||| text::occurs_in("Aspire.Hosting.AppHost"@, csproj)
    ||| text::occurs_in("Aspire.Hosting\""@, csproj)
    ||| text::occurs_in("Aspire.Hosting'"@, csproj)
}

/// The element that declares `framework` as the target framework.
pub open spec fn framework_declaration(framework: Seq<char>) -> Seq<char> {
    "<TargetFramework>"@ + framework + "</TargetFramework>"@
}

/// The target framework of `csproj`: the newest of the well-known ones that it declares, or else
/// what its first `<TargetFramework>` element holds.
pub open spec fn target_framework(csproj: Seq<char>) -> Option<Seq<char>> {
    if text::occurs_in(framework_declaration("net9.0"@), csproj) {
        Some("net9.0"@)
    } else if text::occurs_in(framework_declaration("net8.0"@), csproj) {
        Some("net8.0"@)
    } else if text::occurs_in(framework_declaration("net7.0"@), csproj) {
        Some("net7.0"@)
    } else if text::occurs_in(framework_declaration("net6.0"@), csproj) {
        Some("net6.0"@)
    } else {
        pattern::framework_content(csproj)
    }
}

/// The tags of an AppHost project: the platform, the language and Aspire, then its target framework
/// where there is one.
pub open spec fn tags(csproj: Seq<char>) -> Seq<Seq<char>> {
    let base = seq![".NET"@, "C#"@, "Aspire"@];
    match target_framework(csproj) {
        Some(framework) => base.push(framework),
        None => base,
    }
}

/// Whether `csproj` belongs to an Aspire AppHost.
pub fn is_aspire_apphost(csproj: &str) -> (r: bool)
    ensures
        r == is_apphost(csproj@),
{
    text::contains(csproj, "Sdk=\"Aspire.AppHost.Sdk\"")
        || text::contains(csproj, "Sdk='Aspire.AppHost.Sdk'")
        || text::contains(csproj, "<Sdk Name=\"Aspire.AppHost.Sdk\"")
        || text::contains(csproj, "<Sdk Name='Aspire.AppHost.Sdk'")
        || text::contains(csproj, "Aspire.Hosting.AppHost")
        || text::contains(csproj, "Aspire.Hosting\"")
        || text::contains(csproj, "Aspire.Hosting'")
}

/// Whether `csproj` declares `framework` as the target framework.
pub fn declares_framework(csproj: &str, framework: &str) -> (r: bool)
    ensures
        r == text::occurs_in(framework_declaration(framework@), csproj@),
{
    let mut element: String = "<TargetFramework>".to_string();
    element.append(framework);
    element.append("</TargetFramework>");
    text::contains(csproj, element.as_str())
}

/// The target framework of `csproj`, where it declares one.
pub fn detect_target_framework(csproj: &str) -> (r: Option<String>)
    ensures
        r.deep_view() == target_framework(csproj@),
{
    if declares_framework(csproj, "net9.0") {
        return Some("net9.0".to_string());
    }
    if declares_framework(csproj, "net8.0") {
        return Some("net8.0".to_string());
    }
    if declares_framework(csproj, "net7.0") {
        return Some("net7.0".to_string());
    }
    if declares_framework(csproj, "net6.0") {
        return Some("net6.0".to_string());
    }
    match pattern::captures(pattern::TARGET_FRAMEWORK, csproj) {
        Some(groups) => pattern::group(&groups, 1),
        None => None,
    }
}

/// The tags of an AppHost project.
pub fn project_tags(csproj: &str) -> (r: Vec<String>)
    ensures
        r.deep_view() == tags(csproj@),
{
    let mut r: Vec<String> = vec![".NET".to_string(), "C#".to_string(), "Aspire".to_string()];
    assert(r.deep_view() =~= seq![".NET"@, "C#"@, "Aspire"@]);
    if let Some(framework) = detect_target_framework(csproj) {
        let ghost before = r.deep_view();
        r.push(framework);
        assert(r.deep_view() =~= before.push(framework@));
    }
    r
}

/// Where a project file has a `<TargetFramework>` element on one line, it has a first one.
proof fn first_element_exists(csproj: Seq<char>, i: int, j: int)
    requires
        pattern::framework_element(csproj, i, j),
    ensures
        exists|i1: int, j1: int| pattern::first_framework_element(csproj, i1, j1),
    decreases i, j,
{
    if exists|i2: int, j2: int| pattern::framework_element(csproj, i2, j2) && i2 < i {
        let (i2, j2) = choose|i2: int, j2: int|
            pattern::framework_element(csproj, i2, j2) && i2 < i;
        first_element_exists(csproj, i2, j2);
    } else if exists|j2: int| pattern::framework_element(csproj, i, j2) && j2 < j {
        let j2 = choose|j2: int| pattern::framework_element(csproj, i, j2) && j2 < j;
        first_element_exists(csproj, i, j2);
    } else {
        assert(pattern::first_framework_element(csproj, i, j));
    }
}

/// Where a well-known framework is declared, there is a `<TargetFramework>` element on one line.
proof fn declaration_is_element(csproj: Seq<char>, framework: Seq<char>)
    requires
        text::occurs_in(framework_declaration(framework), csproj),
        !framework.contains('\n'),
    ensures
        exists|i: int, j: int| pattern::framework_element(csproj, i, j),
{
    let whole = framework_declaration(framework);
    let i = choose|i: int| text::occurs_at(whole, csproj, i);
    let open = "<TargetFramework>"@;
    let close = "</TargetFramework>"@;
    let j = i + open.len() + framework.len();
    assert(csproj.subrange(i, i + open.len()) =~= whole.subrange(0, open.len() as int));
    assert(whole.subrange(0, open.len() as int) =~= open);
    assert(csproj.subrange(j, j + close.len()) =~= whole.subrange(j - i, whole.len() as int));
    assert(whole.subrange(j - i, whole.len() as int) =~= close);
    assert forall|k: int| i + open.len() <= k < j implies #[trigger] csproj[k] != '\n' by {
        assert(csproj.subrange(i, i + whole.len())[k - i] == whole[k - i]);
        assert(whole[k - i] == framework[k - i - open.len()]);
    }
    assert(pattern::framework_element(csproj, i, j));
}

/// A target framework is found exactly where the project file has a `<TargetFramework>` element
/// that opens and closes on one line.
pub proof fn framework_is_found_where_declared(csproj: Seq<char>)
    ensures
        target_framework(csproj) is Some <==> exists|i: int, j: int|
            pattern::framework_element(csproj, i, j),
{
    reveal_strlit("net9.0");
    reveal_strlit("net8.0");
    reveal_strlit("net7.0");
    reveal_strlit("net6.0");
    if text::occurs_in(framework_declaration("net9.0"@), csproj) {
        declaration_is_element(csproj, "net9.0"@);
    } else if text::occurs_in(framework_declaration("net8.0"@), csproj) {
        declaration_is_element(csproj, "net8.0"@);
    } else if text::occurs_in(framework_declaration("net7.0"@), csproj) {
        declaration_is_element(csproj, "net7.0"@);
    } else if text::occurs_in(framework_declaration("net6.0"@), csproj) {
        declaration_is_element(csproj, "net6.0"@);
    } else if exists|i: int, j: int| pattern::framework_element(csproj, i, j) {
        let (i, j) = choose|i: int, j: int| pattern::framework_element(csproj, i, j);
        first_element_exists(csproj, i, j);
    }
}

/// Whatever target framework is found, the project file declares it, literally.
pub proof fn found_framework_is_declared(csproj: Seq<char>)
    ensures
        target_framework(csproj) matches Some(framework) ==> text::occurs_in(
            framework_declaration(framework),
            csproj,
        ),
{
    if let Some(framework) = pattern::framework_content(csproj) {
        let (i, j) = choose|i: int, j: int| pattern::first_framework_element(csproj, i, j);
        let open = "<TargetFramework>"@;
        let close = "</TargetFramework>"@;
        let whole = framework_declaration(framework);
        assert(csproj.subrange(i, i + whole.len()) =~= csproj.subrange(i, i + open.len())
            + csproj.subrange(i + open.len(), j) + csproj.subrange(j, j + close.len()));
        assert(text::occurs_at(whole, csproj, i));
    }
}

/// The first `<TargetFramework>` element is one: wherever an element starts leftmost and is the
/// shortest to start there, its content is what is found.
pub proof fn first_element_is_unique(csproj: Seq<char>, i: int, j: int)
    requires
        pattern::first_framework_element(csproj, i, j),
    ensures
        pattern::framework_content(csproj) == Some(
            csproj.subrange(i + "<TargetFramework>"@.len(), j),
        ),
{
    let (i2, j2) = choose|i2: int, j2: int| pattern::first_framework_element(csproj, i2, j2);
    assert(pattern::framework_element(csproj, i2, j2));
    assert(i == i2);
    assert(j == j2);
}

/// A project file belongs to an AppHost exactly where it names the AppHost SDK, as the attribute
/// `Sdk` or as an element `<Sdk Name=..`, or the hosting package, each in quotation marks of either
/// sort, or where it names the package `Aspire.Hosting.AppHost` anywhere.
pub proof fn apphost_is_told_by_sdk_or_package(csproj: Seq<char>)
    ensures
        is_apphost(csproj) <==> {
            ||| exists|a: Seq<char>, q: char, b: Seq<char>|
                {
                    &&& q == '"' || q == '\''
                    &&& csproj == #[trigger] (a + ("Sdk="@.push(q) + "Aspire.AppHost.Sdk"@.push(q))
                        + b)
                }
            ||| exists|a: Seq<char>, q: char, b: Seq<char>|
                {
                    &&& q == '"' || q == '\''
                    &&& csproj == #[trigger] (a + ("<Sdk Name="@.push(q)
                        + "Aspire.AppHost.Sdk"@.push(q)) + b)
                }
            ||| exists|a: Seq<char>, q: char, b: Seq<char>|
                {
                    &&& q == '"' || q == '\''
                    &&& csproj == #[trigger] (a + "Aspire.Hosting"@.push(q) + b)
                }
            ||| exists|a: Seq<char>, b: Seq<char>|
                csproj == #[trigger] (a + "Aspire.Hosting.AppHost"@ + b)
        },
{
    let sdk = "Aspire.AppHost.Sdk"@;
    let package = "Aspire.Hosting"@;
    signals_are_quoted();
    text::occurrence_splits_the_text("Sdk="@.push('"') + sdk.push('"'), csproj);
    text::occurrence_splits_the_text("Sdk="@.push('\'') + sdk.push('\''), csproj);
    text::occurrence_splits_the_text("<Sdk Name="@.push('"') + sdk.push('"'), csproj);
    text::occurrence_splits_the_text("<Sdk Name="@.push('\'') + sdk.push('\''), csproj);
    text::occurrence_splits_the_text("Aspire.Hosting.AppHost"@, csproj);
    text::occurrence_splits_the_text(package.push('"'), csproj);
    text::occurrence_splits_the_text(package.push('\''), csproj);
}

/// The signals of an AppHost are names in quotation marks of one sort or the other.
proof fn signals_are_quoted()
    ensures
        "Sdk=\"Aspire.AppHost.Sdk\""@ == "Sdk="@.push('"') + "Aspire.AppHost.Sdk"@.push('"'),
        "Sdk='Aspire.AppHost.Sdk'"@ == "Sdk="@.push('\'') + "Aspire.AppHost.Sdk"@.push('\''),
        "<Sdk Name=\"Aspire.AppHost.Sdk\""@ == "<Sdk Name="@.push('"')
            + "Aspire.AppHost.Sdk"@.push('"'),
        "<Sdk Name='Aspire.AppHost.Sdk'"@ == "<Sdk Name="@.push('\'')
            + "Aspire.AppHost.Sdk"@.push('\''),
        "Aspire.Hosting\""@ == "Aspire.Hosting"@.push('"'),
        "Aspire.Hosting'"@ == "Aspire.Hosting"@.push('\''),
        "Aspire.Hosting.AppHost"@ == "Aspire.Hosting"@ + ".AppHost"@,
{
    reveal_strlit("Sdk=");
    reveal_strlit("<Sdk Name=");
    reveal_strlit("Aspire.AppHost.Sdk");
    reveal_strlit("Aspire.Hosting");
    reveal_strlit(".AppHost");
    reveal_strlit("Sdk=\"Aspire.AppHost.Sdk\"");
    reveal_strlit("Sdk='Aspire.AppHost.Sdk'");
    reveal_strlit("<Sdk Name=\"Aspire.AppHost.Sdk\"");
    reveal_strlit("<Sdk Name='Aspire.AppHost.Sdk'");
    reveal_strlit("Aspire.Hosting.AppHost");
    reveal_strlit("Aspire.Hosting\"");
    reveal_strlit("Aspire.Hosting'");
}

/// What holds a text that holds another holds that other.
proof fn part_of_a_part_occurs(head: Seq<char>, inner: Seq<char>, tail: Seq<char>, s: Seq<char>)
    requires
        text::occurs_in(head + inner + tail, s),
    ensures
        exists|a: Seq<char>, b: Seq<char>| s == #[trigger] (a + inner + b),
{
    let whole = head + inner + tail;
    text::occurrence_splits_the_text(whole, s);
    let (a, b) = choose|a: Seq<char>, b: Seq<char>| s == #[trigger] (a + whole + b);
    assert(s =~= (a + head) + inner + (tail + b));
}

/// A project file in which neither `Aspire.AppHost.Sdk` nor `Aspire.Hosting` stands belongs to no
/// AppHost.
pub proof fn apphost_names_aspire(csproj: Seq<char>)
    requires
        is_apphost(csproj),
    ensures
        (exists|a: Seq<char>, b: Seq<char>| csproj == #[trigger] (a + "Aspire.AppHost.Sdk"@ + b))
            || (exists|a: Seq<char>, b: Seq<char>|
            csproj == #[trigger] (a + "Aspire.Hosting"@ + b)),
{
    let sdk = "Aspire.AppHost.Sdk"@;
    let package = "Aspire.Hosting"@;
    let none = Seq::<char>::empty();
    signals_are_quoted();
    assert("Sdk="@.push('"') + sdk.push('"') =~= "Sdk="@.push('"') + sdk + seq!['"']);
    assert("Sdk="@.push('\'') + sdk.push('\'') =~= "Sdk="@.push('\'') + sdk + seq!['\'']);
    assert("<Sdk Name="@.push('"') + sdk.push('"') =~= "<Sdk Name="@.push('"') + sdk + seq!['"']);
    assert("<Sdk Name="@.push('\'') + sdk.push('\'') =~= "<Sdk Name="@.push('\'') + sdk
        + seq!['\'']);
    assert(package.push('"') =~= none + package + seq!['"']);
    assert(package.push('\'') =~= none + package + seq!['\'']);
    assert(package + ".AppHost"@ =~= none + package + ".AppHost"@);
    if text::occurs_in("Sdk=\"Aspire.AppHost.Sdk\""@, csproj) {
        part_of_a_part_occurs("Sdk="@.push('"'), sdk, seq!['"'], csproj);
    } else if text::occurs_in("Sdk='Aspire.AppHost.Sdk'"@, csproj) {
        part_of_a_part_occurs("Sdk="@.push('\''), sdk, seq!['\''], csproj);
    } else if text::occurs_in("<Sdk Name=\"Aspire.AppHost.Sdk\""@, csproj) {
        part_of_a_part_occurs("<Sdk Name="@.push('"'), sdk, seq!['"'], csproj);
    } else if text::occurs_in("<Sdk Name='Aspire.AppHost.Sdk'"@, csproj) {
        part_of_a_part_occurs("<Sdk Name="@.push('\''), sdk, seq!['\''], csproj);
    } else if text::occurs_in("Aspire.Hosting.AppHost"@, csproj) {
        part_of_a_part_occurs(none, package, ".AppHost"@, csproj);
    } else if text::occurs_in("Aspire.Hosting\""@, csproj) {
        part_of_a_part_occurs(none, package, seq!['"'], csproj);
    } else {
        part_of_a_part_occurs(none, package, seq!['\''], csproj);
    }
}

/// Whatever is written around it, the project file of an AppHost stays one.
pub proof fn more_text_keeps_an_apphost(a: Seq<char>, csproj: Seq<char>, b: Seq<char>)
    requires
        is_apphost(csproj),
    ensures
        is_apphost(a + csproj + b),
{
    let longer = a + csproj + b;
    assert forall|pat: Seq<char>| #[trigger] text::occurs_in(pat, csproj) implies text::occurs_in(
        pat,
        longer,
    ) by {
        let i = choose|i: int| text::occurs_at(pat, csproj, i);
        assert(longer.subrange(a.len() + i, a.len() + i + pat.len()) =~= csproj.subrange(
            i,
            i + pat.len(),
        ));
        assert(text::occurs_at(pat, longer, a.len() + i));
    }
}

/// Of the well-known frameworks the newest that is declared is found, wherever it is declared.
pub proof fn newest_known_framework_is_found(
    csproj: Seq<char>,
    a: Seq<char>,
    b: Seq<char>,
    i: int,
)
    requires
        0 <= i < 4,
        ({
            let known = seq!["net9.0"@, "net8.0"@, "net7.0"@, "net6.0"@];
            &&& csproj == a + ("<TargetFramework>"@ + known[i] + "</TargetFramework>"@) + b
            &&& forall|j: int, c: Seq<char>, d: Seq<char>|
                0 <= j < i ==> csproj != #[trigger] (c + ("<TargetFramework>"@ + known[j]
                    + "</TargetFramework>"@) + d)
        }),
    ensures
        target_framework(csproj) == Some(
            seq!["net9.0"@, "net8.0"@, "net7.0"@, "net6.0"@][i],
        ),
{
    let known = seq!["net9.0"@, "net8.0"@, "net7.0"@, "net6.0"@];
    text::middle_occurs(a, framework_declaration(known[i]), b);
    assert forall|j: int| 0 <= j < i implies !text::occurs_in(
        framework_declaration(#[trigger] known[j]),
        csproj,
    ) by {
        text::occurrence_splits_the_text(framework_declaration(known[j]), csproj);
    }
    assert(i > 0 ==> !text::occurs_in(framework_declaration(known[0]), csproj));
    assert(i > 1 ==> !text::occurs_in(framework_declaration(known[1]), csproj));
    assert(i > 2 ==> !text::occurs_in(framework_declaration(known[2]), csproj));
}

/// Where no well-known framework is declared, the content of the first `<TargetFramework>` element
/// is found as it stands.
pub proof fn other_framework_is_found_as_it_stands(
    a: Seq<char>,
    framework: Seq<char>,
    b: Seq<char>,
)
    requires
        forall|c: Seq<char>, d: Seq<char>| a != #[trigger] (c + "<TargetFramework>"@ + d),
        forall|k: int|
            0 <= k < framework.len() ==> #[trigger] framework[k] != '<' && framework[k] != '\n',
        forall|known: Seq<char>, c: Seq<char>, d: Seq<char>|
            known == "net9.0"@ || known == "net8.0"@ || known == "net7.0"@ || known == "net6.0"@
                ==> a + ("<TargetFramework>"@ + framework + "</TargetFramework>"@) + b
                != #[trigger] (c + ("<TargetFramework>"@ + known + "</TargetFramework>"@) + d),
    ensures
        target_framework(
            a + ("<TargetFramework>"@ + framework + "</TargetFramework>"@) + b,
        ) == Some(framework),
{
    let open = "<TargetFramework>"@;
    let close = "</TargetFramework>"@;
    let csproj = a + (open + framework + close) + b;
    reveal_strlit("<TargetFramework>");
    reveal_strlit("</TargetFramework>");
    text::occurrence_splits_the_text(framework_declaration("net9.0"@), csproj);
    text::occurrence_splits_the_text(framework_declaration("net8.0"@), csproj);
    text::occurrence_splits_the_text(framework_declaration("net7.0"@), csproj);
    text::occurrence_splits_the_text(framework_declaration("net6.0"@), csproj);
    let i = a.len() as int;
    let j = i + open.len() + framework.len();
    assert(csproj.subrange(i, i + open.len()) =~= open);
    assert(csproj.subrange(j, j + close.len()) =~= close);
    assert forall|k: int| i + open.len() <= k < j implies #[trigger] csproj[k] != '\n' by {
        assert(csproj[k] == framework[k - i - open.len()]);
    }
    assert(pattern::framework_element(csproj, i, j));
    assert forall|j2: int| #[trigger] pattern::framework_element(csproj, i, j2) implies j <= j2 by {
        if j2 < j {
            assert(csproj[j2] == csproj.subrange(j2, j2 + close.len())[0]);
            assert(csproj[j2] == framework[j2 - i - open.len()]);
        }
    }
    assert forall|i2: int, j2: int| #[trigger]
        pattern::framework_element(csproj, i2, j2) implies i <= i2 by {
        if i2 < i {
            let here = csproj.subrange(i2, i2 + open.len());
            if i2 + open.len() <= i {
                assert(a =~= a.take(i2) + here + a.skip(i2 + open.len()));
            } else {
                assert(here[i - i2] == csproj[i]);
                assert(csproj[i] == open[0]);
            }
        }
    }
    assert(pattern::first_framework_element(csproj, i, j));
    first_element_is_unique(csproj, i, j);
    assert(csproj.subrange(i + open.len(), j) =~= framework);
}

/// Without an opening `<TargetFramework>` tag no target framework is found.
pub proof fn no_tag_no_framework(csproj: Seq<char>)
    requires
        forall|a: Seq<char>, b: Seq<char>| csproj != #[trigger] (a + "<TargetFramework>"@ + b),
    ensures
        target_framework(csproj) is None,
{
    framework_is_found_where_declared(csproj);
    text::occurrence_splits_the_text("<TargetFramework>"@, csproj);
}

/// Every AppHost has the tags of its platform, its language and Aspire, in this order, and one more
/// exactly where it has a target framework: that framework.
pub proof fn tags_tell_the_framework(csproj: Seq<char>)
    ensures
        tags(csproj).len() >= 3,
        tags(csproj)[0] == ".NET"@,
        tags(csproj)[1] == "C#"@,
        tags(csproj)[2] == "Aspire"@,
        match target_framework(csproj) {
            Some(framework) => tags(csproj).len() == 4 && tags(csproj)[3] == framework,
            None => tags(csproj).len() == 3,
        },
{
}

/// A framework is declared exactly where it stands between an opening and a closing tag, with
/// nothing else between them.
pub proof fn framework_stands_between_its_tags(csproj: Seq<char>, framework: Seq<char>)
    ensures
        text::occurs_in(framework_declaration(framework), csproj) <==> exists|
            a: Seq<char>,
            b: Seq<char>,
        |
            csproj == #[trigger] (a + ("<TargetFramework>"@ + framework + "</TargetFramework>"@)
                + b),
{
    text::occurrence_splits_the_text(framework_declaration(framework), csproj);
}

/// Where no well-known framework is declared, what is found stands between the leftmost opening tag
/// that is closed on its line and the first closing tag after it.
pub proof fn leftmost_element_tells_other_frameworks(csproj: Seq<char>, i: int, j: int)
    requires
        pattern::framework_element(csproj, i, j),
        forall|j2: int| #[trigger] pattern::framework_element(csproj, i, j2) ==> j <= j2,
        forall|i2: int, j2: int| #[trigger] pattern::framework_element(csproj, i2, j2) ==> i <= i2,
        forall|known: Seq<char>, c: Seq<char>, d: Seq<char>|
            known == "net9.0"@ || known == "net8.0"@ || known == "net7.0"@ || known == "net6.0"@
                ==> csproj != #[trigger] (c + ("<TargetFramework>"@ + known
                + "</TargetFramework>"@) + d),
    ensures
        target_framework(csproj) == Some(csproj.subrange(i + 17, j)),
{
    reveal_strlit("<TargetFramework>");
    text::occurrence_splits_the_text(framework_declaration("net9.0"@), csproj);
    text::occurrence_splits_the_text(framework_declaration("net8.0"@), csproj);
    text::occurrence_splits_the_text(framework_declaration("net7.0"@), csproj);
    text::occurrence_splits_the_text(framework_declaration("net6.0"@), csproj);
    assert(pattern::first_framework_element(csproj, i, j));
    first_element_is_unique(csproj, i, j);
}

} // verus!
