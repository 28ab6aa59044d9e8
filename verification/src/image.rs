//! Images: how one is named in the state, in the source registry and in the
//! destination registry.

use vstd::prelude::*;

use crate::config::{ProjectConfig, ProjectView};
use crate::text;

verus! {

/// An image as contracts speak of it.
pub struct ImageView {
    pub project: ProjectView,
    pub repository: Seq<char>,
    pub tag: Seq<char>,
}

impl ImageView {
    /// The name under which the state knows the image.
    pub open spec fn image_ref(self) -> Seq<char> {
        "(source)"@ + self.project.source + "/"@ + self.repository + ":"@ + self.tag
            + "->(destination)"@ + self.project.destination + "/"@ + self.repository + ":"@
            + self.tag
    }

    /// The repository and the tag, as a person reads them.
    pub open spec fn label(self) -> Seq<char> {
        self.repository + ":"@ + self.tag
    }

    /// The image of `project` at the registry with this URL.
    pub open spec fn at(self, url: Seq<char>, project: Seq<char>) -> Seq<char> {
        registry_host(url) + "/"@ + project + "/"@ + self.repository + ":"@ + self.tag
    }
}

/// What is left of a URL without its scheme: every `https://` is taken out,
/// then every `http://`.
pub open spec fn registry_host(url: Seq<char>) -> Seq<char> {
    text::replace_all(text::replace_all(url, "https://"@, ""@), "http://"@, ""@)
}

/// One image: a tag of a repository of a project.
#[derive(Debug)]
pub struct ImageRef {
    pub project: ProjectConfig,
    pub repository: String,
    pub tag: String,
}

impl View for ImageRef {
    type V = ImageView;

    open spec fn view(&self) -> ImageView {
        ImageView { project: self.project@, repository: self.repository@, tag: self.tag@ }
    }
}

impl Clone for ImageRef {
    fn clone(&self) -> (r: Self)
        ensures
            r@ == self@,
    {
        ImageRef {
            project: self.project.clone(),
            repository: self.repository.clone(),
            tag: self.tag.clone(),
        }
    }
}

impl ImageRef {
    /// The name under which the state knows the image.
    pub fn to_string(&self) -> (r: String)
        ensures
            r@ == self@.image_ref(),
    {
        let mut r = text::owned("(source)");
        r.append(self.project.source.as_str());
        r.append("/");
        r.append(self.repository.as_str());
        r.append(":");
        r.append(self.tag.as_str());
        r.append("->(destination)");
        r.append(self.project.destination.as_str());
        r.append("/");
        r.append(self.repository.as_str());
        r.append(":");
        r.append(self.tag.as_str());
        r
    }

    /// The repository and the tag, as a person reads them.
    pub fn label(&self) -> (r: String)
        ensures
            r@ == self@.label(),
    {
        let mut r = self.repository.clone();
        r.append(":");
        r.append(self.tag.as_str());
        r
    }

    /// The image of `project` at the registry with this URL.
    pub fn at(&self, url: &str, project: &str) -> (r: String)
        ensures
            r@ == self@.at(url@, project@),
    {
        let mut r = host_of(url);
        r.append("/");
        r.append(project);
        r.append("/");
        r.append(self.repository.as_str());
        r.append(":");
        r.append(self.tag.as_str());
        r
    }
}

/// What is left of a URL without its scheme.
pub fn host_of(url: &str) -> (r: String)
    ensures
        r@ == registry_host(url@),
{
    proof {
        reveal_strlit("https://");
        reveal_strlit("http://");
    }
    let without_https = text::replace(url, "https://", "");
    text::replace(without_https.as_str(), "http://", "")
}

/// A scheme before a URL does not change the host.
pub proof fn law_scheme_is_dropped(rest: Seq<char>)
    ensures
        registry_host("https://"@ + rest) == registry_host(rest),
        registry_host("http://"@ + rest) == registry_host(rest),
{
    reveal_strlit("https://");
    reveal_strlit("http://");
    reveal_strlit("");
    let empty = ""@;
    assert(empty =~= Seq::empty());
    let secure = "https://"@ + rest;
    assert(secure.subrange(0, 8) =~= "https://"@);
    assert(secure.skip(8) =~= rest);
    assert(text::replace_all(secure, "https://"@, empty) =~= text::replace_all(
        rest,
        "https://"@,
        empty,
    ));
    let first = text::replace_all(rest, "https://"@, empty);
    lemma_plain_scheme_is_kept(rest, 0);
    let plain = "http://"@ + first;
    assert(("http://"@ + rest).skip(0) =~= "http://"@ + rest);
    assert("http://"@.skip(0) =~= "http://"@);
    assert(plain.subrange(0, 7) =~= "http://"@);
    assert(plain.skip(7) =~= first);
    assert(text::replace_all(plain, "http://"@, empty) =~= text::replace_all(
        first,
        "http://"@,
        empty,
    ));
}

/// Taking out `https://` leaves `http://` before a text where it is.
proof fn lemma_plain_scheme_is_kept(rest: Seq<char>, from: int)
    requires
        0 <= from <= 7,
    ensures
        text::replace_all(("http://"@ + rest).skip(from), "https://"@, ""@) == "http://"@.skip(
            from,
        ) + text::replace_all(rest, "https://"@, ""@),
    decreases 7 - from,
{
    reveal_strlit("https://");
    reveal_strlit("http://");
    let scheme = "http://"@;
    let secure = "https://"@;
    let here = (scheme + rest).skip(from);
    let kept = text::replace_all(rest, secure, ""@);
    if from == 7 {
        assert(here =~= rest);
        assert(scheme.skip(7) + kept =~= kept);
    } else {
        lemma_plain_scheme_is_kept(rest, from + 1);
        assert(!text::occurs_at(here, secure, 0)) by {
            if text::occurs_at(here, secure, 0) {
                let part = here.subrange(0, 8);
                assert(part[0] == secure[0]);
                assert(part[4] == secure[4]);
                assert(here[0] == scheme[from]);
                if from == 0 {
                    assert(here[4] == scheme[4]);
                }
            }
        }
        assert(here.skip(1) =~= (scheme + rest).skip(from + 1));
        assert(text::replace_all(here, secure, ""@) =~= scheme.skip(from) + kept);
    }
}

/// A text without a scheme in it is its own host.
pub proof fn law_plain_host_is_kept(host: Seq<char>)
    requires
        forall|i: int| 0 <= i < host.len() ==> !text::occurs_at(host, "https://"@, i),
        forall|i: int| 0 <= i < host.len() ==> !text::occurs_at(host, "http://"@, i),
    ensures
        registry_host(host) == host,
{
    text::lemma_replace_nothing(host, "https://"@, ""@);
    text::lemma_replace_nothing(host, "http://"@, ""@);
}

/// An image of a repository that the registry lists as `project/name` is
/// fetched under that full name.
pub proof fn law_image_is_fetched_by_its_full_name(
    url: Seq<char>,
    project: ProjectView,
    name: Seq<char>,
    tag: Seq<char>,
)
    requires
        !project.source.contains('/'),
    ensures
        ({
            let full = project.source + "/"@ + name;
            let repository = crate::listing::within_project(full);
            (ImageView { project, repository, tag }).at(url, project.source) == registry_host(url)
                + "/"@ + full + ":"@ + tag
        }),
{
    crate::listing::law_project_is_stripped(project.source, name);
    let full = project.source + "/"@ + name;
    assert((ImageView { project, repository: name, tag }).at(url, project.source) =~= registry_host(
        url,
    ) + "/"@ + full + ":"@ + tag);
}

/// Texts that begin alike and are of one length are alike piece by piece.
pub proof fn lemma_same_prefix(a: Seq<char>, x: Seq<char>, b: Seq<char>, y: Seq<char>)
    requires
        a + x == b + y,
        a.len() == b.len(),
    ensures
        a == b,
        x == y,
{
    assert(a =~= (a + x).take(a.len() as int));
    assert(b =~= (b + y).take(b.len() as int));
    assert(x =~= (a + x).skip(a.len() as int));
    assert(y =~= (b + y).skip(b.len() as int));
}

/// Two texts that are cut at the first `c` are cut at the same place.
pub proof fn lemma_cut_at_first(
    a: Seq<char>,
    x: Seq<char>,
    b: Seq<char>,
    y: Seq<char>,
    c: char,
)
    requires
        !a.contains(c),
        !b.contains(c),
        a + seq![c] + x == b + seq![c] + y,
    ensures
        a == b,
        x == y,
{
    let s = a + seq![c] + x;
    assert(s[a.len() as int] == c);
    assert((b + seq![c] + y)[b.len() as int] == c);
    if a.len() < b.len() {
        assert(s[a.len() as int] == b[a.len() as int]);
        assert(b.contains(c));
    } else if b.len() < a.len() {
        assert(s[b.len() as int] == a[b.len() as int]);
        assert(a.contains(c));
    }
    assert(a + seq![c] + x =~= a + (seq![c] + x));
    assert(b + seq![c] + y =~= b + (seq![c] + y));
    lemma_same_prefix(a, seq![c] + x, b, seq![c] + y);
    lemma_same_prefix(seq![c], x, seq![c], y);
}

/// A repository and a tag can be told from their label, tags having no colon
/// in them.
pub proof fn law_label_identifies_repository_and_tag(a: ImageView, b: ImageView)
    requires
        !a.tag.contains(':'),
        !b.tag.contains(':'),
        a.label() == b.label(),
    ensures
        a.repository == b.repository,
        a.tag == b.tag,
{
    reveal_strlit(":");
    let s = a.label();
    let i = a.repository.len() as int;
    let j = b.repository.len() as int;
    assert((a.repository + ":"@).len() == i + 1);
    assert((b.repository + ":"@).len() == j + 1);
    assert(s.len() == i + 1 + a.tag.len());
    assert(b.label().len() == j + 1 + b.tag.len());
    assert(s[i] == ':' && b.label()[j] == ':');
    if i < j {
        assert(s[j] == a.tag[j - i - 1]);
        assert(a.tag.contains(':'));
    } else if j < i {
        assert(b.label()[i] == b.tag[i - j - 1]);
        assert(b.tag.contains(':'));
    }
    assert(a.label() =~= a.repository + (":"@ + a.tag));
    assert(b.label() =~= b.repository + (":"@ + b.tag));
    lemma_same_prefix(a.repository, ":"@ + a.tag, b.repository, ":"@ + b.tag);
    lemma_same_prefix(":"@, a.tag, ":"@, b.tag);
}

/// Within one project the state tells images apart exactly by their labels.
pub proof fn law_state_tells_labels_apart(a: ImageView, b: ImageView)
    requires
        a.project == b.project,
    ensures
        a.image_ref() == b.image_ref() <==> a.label() == b.label(),
{
    let head = "(source)"@ + a.project.source + "/"@;
    let middle = "->(destination)"@ + a.project.destination + "/"@;
    assert(a.image_ref() =~= head + (a.label() + (middle + a.label())));
    assert(b.image_ref() =~= head + (b.label() + (middle + b.label())));
    if a.image_ref() == b.image_ref() {
        lemma_same_prefix(
            head,
            a.label() + (middle + a.label()),
            head,
            b.label() + (middle + b.label()),
        );
        assert(a.label().len() == b.label().len());
        lemma_same_prefix(a.label(), middle + a.label(), b.label(), middle + b.label());
    }
}

/// The state never takes one image for another, as long as they are named as
/// registries name them: no slash in a project, no colon in a tag, and not the
/// mark that goes before the destination in a repository or a tag.
pub proof fn law_state_tells_images_apart(a: ImageView, b: ImageView)
    requires
        !a.project.source.contains('/'),
        !b.project.source.contains('/'),
        forall|i: int|
            0 <= i < a.label().len() ==> !text::occurs_at(a.label(), "->(destination)"@, i),
        forall|i: int|
            0 <= i < b.label().len() ==> !text::occurs_at(b.label(), "->(destination)"@, i),
        !a.tag.contains(':'),
        !b.tag.contains(':'),
        a.image_ref() == b.image_ref(),
    ensures
        a == b,
{
    reveal_strlit("(source)");
    reveal_strlit("/");
    reveal_strlit("->(destination)");
    let slash = "/"@;
    assert(slash =~= seq!['/']);
    let arrow = "->(destination)"@;
    let rest_a = a.label() + arrow + a.project.destination + slash + a.label();
    let rest_b = b.label() + arrow + b.project.destination + slash + b.label();
    assert(a.image_ref() =~= "(source)"@ + (a.project.source + slash + rest_a));
    assert(b.image_ref() =~= "(source)"@ + (b.project.source + slash + rest_b));
    lemma_same_prefix(
        "(source)"@,
        a.project.source + slash + rest_a,
        "(source)"@,
        b.project.source + slash + rest_b,
    );
    lemma_cut_at_first(a.project.source, rest_a, b.project.source, rest_b, '/');
    let tail_a = a.project.destination + (slash + a.label());
    let tail_b = b.project.destination + (slash + b.label());
    assert(rest_a =~= a.label() + arrow + tail_a);
    assert(rest_b =~= b.label() + arrow + tail_b);
    lemma_arrows_stand_alike(a.label(), tail_a, b.label(), tail_b);
    assert(a.label() + arrow + tail_a =~= a.label() + (arrow + tail_a));
    assert(b.label() + arrow + tail_b =~= b.label() + (arrow + tail_b));
    lemma_same_prefix(a.label(), arrow + tail_a, b.label(), arrow + tail_b);
    lemma_same_prefix(arrow, tail_a, arrow, tail_b);
    lemma_same_prefix(
        a.project.destination,
        slash + a.label(),
        b.project.destination,
        slash + b.label(),
    );
    law_label_identifies_repository_and_tag(a, b);
}

/// Where two texts are alike and each is cut at its first arrow, the second is
/// not cut before the first.
proof fn lemma_arrow_not_before(a: Seq<char>, x: Seq<char>, b: Seq<char>, y: Seq<char>)
    requires
        forall|i: int| 0 <= i < b.len() ==> !text::occurs_at(b, "->(destination)"@, i),
        a + "->(destination)"@ + x == b + "->(destination)"@ + y,
    ensures
        b.len() <= a.len(),
{
    reveal_strlit("->(destination)");
    let arrow = "->(destination)"@;
    let s = a + arrow + x;
    if a.len() < b.len() {
        let at = a.len() as int;
        if at + arrow.len() <= b.len() {
            assert(b.subrange(at, at + arrow.len()) =~= arrow) by {
                assert forall|k: int| 0 <= k < arrow.len() implies b[at + k] == arrow[k] by {
                    assert(s[at + k] == arrow[k]);
                    assert((b + arrow + y)[at + k] == b[at + k]);
                }
            }
            assert(text::occurs_at(b, arrow, at));
        } else {
            // The arrow after b would begin inside the arrow after a.
            let k = b.len() - at;
            assert(s[at + k] == arrow[k]);
            assert((b + arrow + y)[b.len() as int] == arrow[0]);
            assert(arrow[k] != '-');
        }
    }
}

/// Where two texts are alike and each is cut at its first arrow, they are cut
/// at the same place.
proof fn lemma_arrows_stand_alike(a: Seq<char>, x: Seq<char>, b: Seq<char>, y: Seq<char>)
    requires
        forall|i: int| 0 <= i < a.len() ==> !text::occurs_at(a, "->(destination)"@, i),
        forall|i: int| 0 <= i < b.len() ==> !text::occurs_at(b, "->(destination)"@, i),
        a + "->(destination)"@ + x == b + "->(destination)"@ + y,
    ensures
        a.len() == b.len(),
{
    lemma_arrow_not_before(a, x, b, y);
    lemma_arrow_not_before(b, y, a, x);
}

/// An image is seen as it is.
pub proof fn law_image_is_seen_as_it_is(image: ImageRef)
    ensures
        image@.project.source == image.project.source@,
        image@.project.destination == image.project.destination@,
        image@.repository == image.repository@,
        image@.tag == image.tag@,
{
}

/// The reference of an image is its name in the source project and its name in
/// the destination project, each after a mark of its own.
pub proof fn law_reference_is_both_names(
    project: ProjectView,
    repository: Seq<char>,
    tag: Seq<char>,
)
    ensures
        ({
            let source = project.source + "/"@ + repository + ":"@ + tag;
            let destination = project.destination + "/"@ + repository + ":"@ + tag;
            let reference = (ImageView { project, repository, tag }).image_ref();
            let middle = (8 + source.len()) as int;
            &&& reference.take(8) == "(source)"@
            &&& reference.subrange(8, middle) == source
            &&& reference.subrange(middle, middle + 15) == "->(destination)"@
            &&& reference.skip(middle + 15) == destination
        }),
{
    reveal_strlit("(source)");
    reveal_strlit("->(destination)");
    let source = project.source + "/"@ + repository + ":"@ + tag;
    let destination = project.destination + "/"@ + repository + ":"@ + tag;
    let reference = (ImageView { project, repository, tag }).image_ref();
    let middle = (8 + source.len()) as int;
    assert(reference =~= "(source)"@ + source + "->(destination)"@ + destination);
    assert(reference.take(8) =~= "(source)"@);
    assert(reference.subrange(8, middle) =~= source);
    assert(reference.subrange(middle, middle + 15) =~= "->(destination)"@);
    assert(reference.skip(middle + 15) =~= destination);
}

/// A label begins with the repository, ends with the tag, and has a colon and
/// nothing else in between.
pub proof fn law_label_is_repository_and_tag(image: ImageView)
    ensures
        ({
            let label = image.label();
            let n = image.repository.len() as int;
            &&& label.len() == n + 1 + image.tag.len()
            &&& label.take(n) == image.repository
            &&& label[n] == ':'
            &&& label.skip(n + 1) == image.tag
        }),
{
    reveal_strlit(":");
    let label = image.label();
    let n = image.repository.len() as int;
    assert(label.take(n) =~= image.repository);
    assert(label.skip(n + 1) =~= image.tag);
}

/// At a registry an image goes by the host, the project, the repository and
/// the tag. A scheme in front of the host is no part of the name.
pub proof fn law_name_at_a_registry(
    image: ImageView,
    url: Seq<char>,
    host: Seq<char>,
    project: Seq<char>,
)
    requires
        forall|i: int| 0 <= i < host.len() ==> !text::occurs_at(host, "https://"@, i),
        forall|i: int| 0 <= i < host.len() ==> !text::occurs_at(host, "http://"@, i),
    ensures
        ({
            let rest = "/"@ + project + "/"@ + image.repository + ":"@ + image.tag;
            &&& image.at(host, project) == host + rest
            &&& image.at("https://"@ + host, project) == host + rest
            &&& image.at("http://"@ + host, project) == host + rest
            &&& image.at(url, project) == registry_host(url) + rest
        }),
{
    law_plain_host_is_kept(host);
    law_scheme_is_dropped(host);
    let rest = "/"@ + project + "/"@ + image.repository + ":"@ + image.tag;
    assert(image.at(host, project) =~= host + rest);
    assert(image.at("https://"@ + host, project) =~= host + rest);
    assert(image.at("http://"@ + host, project) =~= host + rest);
    assert(image.at(url, project) =~= registry_host(url) + rest);
}

/// At one registry different images go by different names, as long as no
/// project has a slash in it and no tag a colon: the whole project, the whole
/// repository and the whole tag count.
pub proof fn law_names_at_a_registry_differ(
    url: Seq<char>,
    a: ImageView,
    project_a: Seq<char>,
    b: ImageView,
    project_b: Seq<char>,
)
    requires
        !project_a.contains('/'),
        !project_b.contains('/'),
        !a.tag.contains(':'),
        !b.tag.contains(':'),
        a.at(url, project_a) == b.at(url, project_b),
    ensures
        project_a == project_b,
        a.repository == b.repository,
        a.tag == b.tag,
{
    reveal_strlit("/");
    assert("/"@ =~= seq!['/']);
    let head = registry_host(url) + "/"@;
    let rest_a = project_a + seq!['/'] + a.label();
    let rest_b = project_b + seq!['/'] + b.label();
    assert(a.at(url, project_a) =~= head + rest_a);
    assert(b.at(url, project_b) =~= head + rest_b);
    lemma_same_prefix(head, rest_a, head, rest_b);
    lemma_cut_at_first(project_a, a.label(), project_b, b.label(), '/');
    law_label_identifies_repository_and_tag(a, b);
}

/// Where `https://` stands first in a URL, it is taken out there, and what
/// stood around it is searched for `http://` as one text.
pub proof fn law_secure_scheme_is_taken_out(before: Seq<char>, after: Seq<char>)
    requires
        forall|i: int|
            0 <= i < before.len() ==> !text::occurs_at(
                before + "https://"@ + after,
                "https://"@,
                i,
            ),
    ensures
        registry_host(before + "https://"@ + after) == text::replace_all(
            before + text::replace_all(after, "https://"@, ""@),
            "http://"@,
            ""@,
        ),
{
    reveal_strlit("https://");
    reveal_strlit("");
    text::law_first_occurrence_is_replaced(before, "https://"@, after, ""@);
    assert(before + ""@ + text::replace_all(after, "https://"@, ""@) =~= before
        + text::replace_all(after, "https://"@, ""@));
}

/// Where `http://` stands first in a URL without `https://`, it is taken out,
/// what stands before it is kept, and what follows is treated in the same way.
pub proof fn law_plain_scheme_is_taken_out(before: Seq<char>, after: Seq<char>)
    requires
        forall|i: int|
            0 <= i < (before + "http://"@ + after).len() ==> !text::occurs_at(
                before + "http://"@ + after,
                "https://"@,
                i,
            ),
        forall|i: int|
            0 <= i < before.len() ==> !text::occurs_at(before + "http://"@ + after, "http://"@, i),
    ensures
        registry_host(before + "http://"@ + after) == before + registry_host(after),
{
    reveal_strlit("https://");
    reveal_strlit("http://");
    reveal_strlit("");
    let url = before + "http://"@ + after;
    text::lemma_replace_nothing(url, "https://"@, ""@);
    assert forall|i: int| 0 <= i < after.len() implies !text::occurs_at(
        after,
        "https://"@,
        i,
    ) by {
        if text::occurs_at(after, "https://"@, i) {
            let at = before.len() + 7 + i;
            assert(url.subrange(at, at + 8) =~= after.subrange(i, i + 8));
            assert(text::occurs_at(url, "https://"@, at));
        }
    }
    text::lemma_replace_nothing(after, "https://"@, ""@);
    text::law_first_occurrence_is_replaced(before, "http://"@, after, ""@);
    assert(before + ""@ + text::replace_all(after, "http://"@, ""@) =~= before
        + text::replace_all(after, "http://"@, ""@));
}

} // verus!
