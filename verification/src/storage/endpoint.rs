//! Endpoints that the parser of base URLs cannot take.
//!
//! The parser compares the host of an Amazon endpoint without regard to case,
//! and then looks for the S3 labels at its start in lower case only: where they
//! are there with a capital letter, it panics. Such endpoints are told apart
//! here, from the text of the endpoint.

use vstd::prelude::*;
use vstd::string::*;

verus! {

/// A capital letter of ASCII.
pub open spec fn is_capital(c: char) -> bool {
    'A' <= c && c <= 'Z'
}

/// Whether `c` is the character `small`, or, where case does not count, the
/// capital of it.
pub open spec fn same_letter(c: char, small: char, any_case: bool) -> bool {
    c == small || any_case && is_capital(c) && c as u32 + 32 == small as u32
}

/// Whether `text` starts with `word`.
pub open spec fn starts(text: Seq<char>, word: Seq<char>, any_case: bool) -> bool {
    &&& word.len() <= text.len()
    &&& forall|k: int| 0 <= k < word.len() ==> same_letter(#[trigger] text[k], word[k], any_case)
}

/// Whether `label` is `word`.
pub open spec fn is_word(label: Seq<char>, word: Seq<char>, any_case: bool) -> bool {
    label.len() == word.len() && starts(label, word, any_case)
}

/// A letter, a digit or an underscore; a small letter where case counts.
pub open spec fn is_name_char(c: char, any_case: bool) -> bool {
    'a' <= c && c <= 'z' || '0' <= c && c <= '9' || c == '_' || any_case && is_capital(c)
}

/// Whether `label` is made of the characters of a host name.
pub open spec fn is_label(label: Seq<char>, any_case: bool) -> bool {
    &&& 1 <= label.len() <= 63
    &&& forall|k: int|
        0 <= k < label.len() ==> is_name_char(#[trigger] label[k], any_case) || label[k] == '-'
}

/// Whether `c` is a hyphen or an underscore, at which no label may start or end.
pub open spec fn is_joint(c: char) -> bool {
    c == '-' || c == '_'
}

/// Whether `label` can stand in the host name of an S3 endpoint.
pub open spec fn is_sound_label(label: Seq<char>) -> bool {
    &&& is_label(label, true)
    &&& !is_joint(label[0])
    &&& !is_joint(label.last())
    &&& !starts(label, "vpce-_"@, true)
    &&& !starts(label, "s3-control-_"@, true)
    &&& !starts(label, "s3-_"@, true)
}

/// Whether `label` is `word`, followed by any number of tags, each a hyphen and
/// at least one more character.
pub open spec fn is_tagged(label: Seq<char>, word: Seq<char>, any_case: bool) -> bool {
    &&& starts(label, word, any_case)
    &&& label.len() > word.len() ==> label[word.len() as int] == '-'
    &&& forall|k: int|
        word.len() <= k < label.len() ==> is_name_char(#[trigger] label[k], any_case) || label[k]
            == '-' && k + 1 < label.len() && label[k + 1] != '-'
}

/// Whether a host name starts with the labels of S3: `s3`, or any label and
/// `s3-control`, each with or without tags, or the three labels of a private
/// endpoint.
pub open spec fn has_s3_labels(labels: Seq<Seq<char>>, any_case: bool) -> bool {
    ||| labels.len() >= 1 && is_tagged(labels[0], "s3"@, any_case)
    ||| labels.len() >= 2 && is_label(labels[0], any_case) && is_tagged(
        labels[1],
        "s3-control"@,
        any_case,
    )
    ||| labels.len() >= 3 && (is_word(labels[0], "bucket"@, any_case) || is_word(
        labels[0],
        "accesspoint"@,
        any_case,
    )) && is_tagged(labels[1], "vpce"@, any_case) && labels[1].len() > "vpce"@.len() && is_word(
        labels[2],
        "s3"@,
        any_case,
    )
}

/// How many labels of Amazon's domain a host name ends with.
pub open spec fn domain_labels(labels: Seq<Seq<char>>) -> int {
    let n = labels.len() as int;
    if n >= 2 && is_word(labels[n - 2], "amazonaws"@, true) && is_word(
        labels[n - 1],
        "com"@,
        true,
    ) {
        2
    } else if n >= 3 && is_word(labels[n - 3], "amazonaws"@, true) && is_word(
        labels[n - 2],
        "com"@,
        true,
    ) && is_word(labels[n - 1], "cn"@, true) {
        3
    } else {
        0
    }
}

/// The labels of a host name: what stands between its dots.
pub open spec fn labels_of(host: Seq<char>) -> Seq<Seq<char>>
    decreases host.len(),
{
    if host.len() == 0 {
        seq![Seq::empty()]
    } else {
        let before = labels_of(host.drop_last());
        if host.last() == '.' {
            before.push(Seq::empty())
        } else {
            before.drop_last().push(before.last().push(host.last()))
        }
    }
}

/// Whether the labels are those of an S3 host under Amazon's domain that starts
/// with the labels of S3 only where case does not count.
pub open spec fn are_miscased(labels: Seq<Seq<char>>) -> bool {
    let before_domain = labels.take(labels.len() - domain_labels(labels));
    &&& domain_labels(labels) > 0
    &&& forall|i: int| 0 <= i < labels.len() ==> is_sound_label(#[trigger] labels[i])
    &&& has_s3_labels(before_domain, true)
    &&& !has_s3_labels(before_domain, false)
}

/// Where the authority of an endpoint starts: after `http://` or `https://`, or
/// at once where there is no such scheme.
pub open spec fn authority_start(text: Seq<char>) -> int {
    if starts(text, "http://"@, true) {
        7
    } else if starts(text, "https://"@, true) {
        8
    } else {
        0
    }
}

/// Whether `c` ends the authority of an endpoint.
pub open spec fn ends_authority(c: char) -> bool {
    c == '/' || c == '?' || c == '#'
}

/// The end of the authority that starts at `from`.
pub open spec fn authority_end(text: Seq<char>, from: int) -> int
    decreases text.len() - from,
{
    if from >= text.len() || ends_authority(text[from]) {
        from
    } else {
        authority_end(text, from + 1)
    }
}

/// Where the host starts in the authority from `from` to `end`: after the last
/// `@`.
pub open spec fn host_start(text: Seq<char>, from: int, end: int) -> int
    decreases end - from,
{
    if end <= from {
        from
    } else if text[end - 1] == '@' {
        end
    } else {
        host_start(text, from, end - 1)
    }
}

/// The end of the host that starts at `from`: the first colon before `end`.
pub open spec fn host_end(text: Seq<char>, from: int, end: int) -> int
    decreases end - from,
{
    if from >= end || text[from] == ':' {
        from
    } else {
        host_end(text, from + 1, end)
    }
}

/// Whether nothing but a slash and a fragment follows the authority from `from`
/// to `end`; without a scheme, nothing may follow.
pub open spec fn has_no_path(text: Seq<char>, from: int, end: int) -> bool {
    let next = if end < text.len() && text[end] == '/' {
        end + 1
    } else {
        end
    };
    end == text.len() || from > 0 && (next == text.len() || text[next] == '#')
}

/// The host of an endpoint.
pub open spec fn host_of(text: Seq<char>) -> Seq<char> {
    let from = authority_start(text);
    let end = authority_end(text, from);
    let start = host_start(text, from, end);
    text.subrange(start, host_end(text, start, end))
}

/// Whether an endpoint is a bare host, with or without scheme, user and port,
/// and the host is one that the parser of base URLs trips over.
pub open spec fn is_miscased(text: Seq<char>) -> bool {
    let from = authority_start(text);
    &&& has_no_path(text, from, authority_end(text, from))
    &&& are_miscased(labels_of(host_of(text)))
}

/// Whether a text is a URI.
pub uninterp spec fn is_uri(text: Seq<char>) -> bool;

/// `Uri`'s `FromStr` tells whether a text is a URI. The parser of base URLs
/// starts with it and rejects a text that is none.
#[verifier::external_body]
fn parses_as_uri(text: &str) -> (result: bool)
    ensures
        result == is_uri(text@),
{
    text.parse::<tonic::transport::Uri>().is_ok()
}

/// Whether the parser of base URLs panics on an endpoint.
pub open spec fn panics_parser(endpoint: Seq<char>) -> bool {
    is_miscased(endpoint) && is_uri(endpoint)
}

/// The characters of a text.
fn characters(text: &str) -> (chars: Vec<char>)
    ensures
        chars@ == text@,
{
    let len: usize = text.unicode_len();
    let mut chars: Vec<char> = Vec::new();
    let mut i: usize = 0;
    while i < len
        invariant
            i <= len,
            len == text@.len(),
            chars@ == text@.take(i as int),
        decreases len - i,
    {
        chars.push(text.get_char(i));
        i = i + 1;
    }
    chars
}

/// Decides `same_letter`.
fn matches_letter(c: char, small: char, any_case: bool) -> (result: bool)
    ensures
        result == same_letter(c, small, any_case),
{
    c == small || any_case && 'A' <= c && c <= 'Z' && c as u32 + 32 == small as u32
}

/// Decides `starts`.
fn starts_with(text: &Vec<char>, word: &str, any_case: bool) -> (result: bool)
    ensures
        result == starts(text@, word@, any_case),
{
    let len: usize = word.unicode_len();
    if text.len() < len {
        return false;
    }
    let mut k: usize = 0;
    while k < len
        invariant
            k <= len,
            len == word@.len(),
            len <= text@.len(),
            forall|m: int| 0 <= m < k ==> same_letter(#[trigger] text@[m], word@[m], any_case),
        decreases len - k,
    {
        if !matches_letter(text[k], word.get_char(k), any_case) {
            return false;
        }
        k = k + 1;
    }
    true
}

/// Decides `is_word`.
fn equals_word(label: &Vec<char>, word: &str, any_case: bool) -> (result: bool)
    ensures
        result == is_word(label@, word@, any_case),
{
    label.len() == word.unicode_len() && starts_with(label, word, any_case)
}

/// Decides `is_name_char`.
fn may_name(c: char, any_case: bool) -> (result: bool)
    ensures
        result == is_name_char(c, any_case),
{
    'a' <= c && c <= 'z' || '0' <= c && c <= '9' || c == '_' || any_case && 'A' <= c && c <= 'Z'
}

/// Decides `is_label`.
fn reads_as_label(label: &Vec<char>, any_case: bool) -> (result: bool)
    ensures
        result == is_label(label@, any_case),
{
    if label.len() < 1 || label.len() > 63 {
        return false;
    }
    let mut k: usize = 0;
    while k < label.len()
        invariant
            k <= label@.len(),
            forall|m: int|
                0 <= m < k ==> is_name_char(#[trigger] label@[m], any_case) || label@[m] == '-',
        decreases label@.len() - k,
    {
        if !may_name(label[k], any_case) && label[k] != '-' {
            return false;
        }
        k = k + 1;
    }
    true
}

/// Decides `is_sound_label`.
fn is_sound(label: &Vec<char>) -> (result: bool)
    ensures
        result == is_sound_label(label@),
{
    if !reads_as_label(label, true) {
        return false;
    }
    let first = label[0];
    let last = label[label.len() - 1];
    !(first == '-' || first == '_') && !(last == '-' || last == '_') && !starts_with(
        label,
        "vpce-_",
        true,
    ) && !starts_with(label, "s3-control-_", true) && !starts_with(label, "s3-_", true)
}

/// Decides `is_tagged`.
fn carries_tags(label: &Vec<char>, word: &str, any_case: bool) -> (result: bool)
    ensures
        result == is_tagged(label@, word@, any_case),
{
    let len: usize = word.unicode_len();
    if !starts_with(label, word, any_case) {
        return false;
    }
    if label.len() > len && label[len] != '-' {
        return false;
    }
    let mut k: usize = len;
    while k < label.len()
        invariant
            len == word@.len(),
            len <= k <= label@.len(),
            forall|m: int|
                len <= m < k ==> is_name_char(#[trigger] label@[m], any_case) || label@[m] == '-'
                    && m + 1 < label@.len() && label@[m + 1] != '-',
        decreases label@.len() - k,
    {
        let follows = label[k] == '-' && k + 1 < label.len() && label[k + 1] != '-';
        if !may_name(label[k], any_case) && !follows {
            return false;
        }
        k = k + 1;
    }
    true
}

/// The labels that a list of character lists stands for.
pub open spec fn texts(labels: Seq<Vec<char>>) -> Seq<Seq<char>> {
    Seq::new(labels.len(), |i: int| labels[i]@)
}

/// Decides `has_s3_labels` for the first `n` labels.
fn starts_as_s3(labels: &Vec<Vec<char>>, n: usize, any_case: bool) -> (result: bool)
    requires
        n <= labels@.len(),
    ensures
        result == has_s3_labels(texts(labels@).take(n as int), any_case),
{
    let ghost before = texts(labels@).take(n as int);
    assert(forall|i: int| 0 <= i < n ==> #[trigger] before[i] == labels@[i]@);
    if n >= 1 && carries_tags(&labels[0], "s3", any_case) {
        return true;
    }
    if n >= 2 && reads_as_label(&labels[0], any_case) && carries_tags(
        &labels[1],
        "s3-control",
        any_case,
    ) {
        return true;
    }
    n >= 3 && (equals_word(&labels[0], "bucket", any_case) || equals_word(
        &labels[0],
        "accesspoint",
        any_case,
    )) && carries_tags(&labels[1], "vpce", any_case) && labels[1].len() > "vpce".unicode_len()
        && equals_word(&labels[2], "s3", any_case)
}

/// Decides how many labels of Amazon's domain a host name ends with.
fn count_domain_labels(labels: &Vec<Vec<char>>) -> (count: usize)
    ensures
        count == domain_labels(texts(labels@)),
        count <= labels@.len(),
{
    let n: usize = labels.len();
    if n >= 2 && equals_word(&labels[n - 2], "amazonaws", true) && equals_word(
        &labels[n - 1],
        "com",
        true,
    ) {
        2
    } else if n >= 3 && equals_word(&labels[n - 3], "amazonaws", true) && equals_word(
        &labels[n - 2],
        "com",
        true,
    ) && equals_word(&labels[n - 1], "cn", true) {
        3
    } else {
        0
    }
}

/// Splits part of a text, from `start` to `end`, into labels.
fn split_labels(text: &Vec<char>, start: usize, end: usize) -> (labels: Vec<Vec<char>>)
    requires
        start <= end <= text@.len(),
    ensures
        texts(labels@) == labels_of(text@.subrange(start as int, end as int)),
{
    let mut labels: Vec<Vec<char>> = Vec::new();
    let mut label: Vec<char> = Vec::new();
    let mut i: usize = start;
    assert(text@.subrange(start as int, i as int) =~= Seq::<char>::empty());
    assert(texts(labels@).push(label@) =~= seq![Seq::<char>::empty()]);
    while i < end
        invariant
            start <= i <= end <= text@.len(),
            texts(labels@).push(label@) == labels_of(text@.subrange(start as int, i as int)),
        decreases end - i,
    {
        let c = text[i];
        let ghost shorter = text@.subrange(start as int, i as int);
        let ghost longer = text@.subrange(start as int, i + 1);
        let ghost before = texts(labels@);
        assert(longer.drop_last() =~= shorter);
        assert(before.push(label@).drop_last() =~= before);
        if c == '.' {
            let ghost ended = label@;
            labels.push(label);
            label = Vec::new();
            assert(label@ =~= Seq::empty());
            assert(texts(labels@) =~= before.push(ended));
        } else {
            label.push(c);
        }
        i = i + 1;
    }
    labels.push(label);
    assert(texts(labels@) =~= labels_of(text@.subrange(start as int, end as int)));
    labels
}

/// Decides `are_miscased`.
fn decide_miscased(labels: &Vec<Vec<char>>) -> (result: bool)
    ensures
        result == are_miscased(texts(labels@)),
{
    let domain: usize = count_domain_labels(labels);
    if domain == 0 {
        return false;
    }
    let mut i: usize = 0;
    while i < labels.len()
        invariant
            i <= labels@.len(),
            forall|j: int| 0 <= j < i ==> is_sound_label(#[trigger] texts(labels@)[j]),
        decreases labels@.len() - i,
    {
        if !is_sound(&labels[i]) {
            assert(!is_sound_label(texts(labels@)[i as int]));
            return false;
        }
        i = i + 1;
    }
    let n: usize = labels.len() - domain;
    starts_as_s3(labels, n, true) && !starts_as_s3(labels, n, false)
}

/// Decides `authority_start`.
fn find_authority(text: &Vec<char>) -> (start: usize)
    ensures
        start == authority_start(text@),
        start <= text@.len(),
{
    proof {
        reveal_strlit("http://");
        reveal_strlit("https://");
    }
    if starts_with(text, "http://", true) {
        7
    } else if starts_with(text, "https://", true) {
        8
    } else {
        0
    }
}

/// Decides `authority_end`.
fn find_authority_end(text: &Vec<char>, from: usize) -> (end: usize)
    requires
        from <= text@.len(),
    ensures
        end == authority_end(text@, from as int),
        from <= end <= text@.len(),
{
    let mut end: usize = from;
    while end < text.len() && !(text[end] == '/' || text[end] == '?' || text[end] == '#')
        invariant
            from <= end <= text@.len(),
            authority_end(text@, from as int) == authority_end(text@, end as int),
        decreases text@.len() - end,
    {
        end = end + 1;
    }
    end
}

/// Decides `host_start`.
fn find_host(text: &Vec<char>, from: usize, end: usize) -> (start: usize)
    requires
        from <= end <= text@.len(),
    ensures
        start == host_start(text@, from as int, end as int),
        from <= start <= end,
{
    let mut start: usize = end;
    while start > from && text[start - 1] != '@'
        invariant
            from <= start <= end <= text@.len(),
            host_start(text@, from as int, end as int) == host_start(
                text@,
                from as int,
                start as int,
            ),
        decreases start,
    {
        start = start - 1;
    }
    start
}

/// Decides `host_end`.
fn find_host_end(text: &Vec<char>, from: usize, end: usize) -> (stop: usize)
    requires
        from <= end <= text@.len(),
    ensures
        stop == host_end(text@, from as int, end as int),
        from <= stop <= end,
{
    let mut stop: usize = from;
    while stop < end && text[stop] != ':'
        invariant
            from <= stop <= end <= text@.len(),
            host_end(text@, from as int, end as int) == host_end(text@, stop as int, end as int),
        decreases end - stop,
    {
        stop = stop + 1;
    }
    stop
}

/// Decides whether an endpoint is a bare host that the parser of base URLs
/// trips over.
pub fn has_miscased_host(endpoint: &str) -> (result: bool)
    ensures
        result == is_miscased(endpoint@),
{
    let text = characters(endpoint);
    let from: usize = find_authority(&text);
    let end: usize = find_authority_end(&text, from);
    if end < text.len() {
        let next: usize = if text[end] == '/' {
            end + 1
        } else {
            end
        };
        if !(from > 0 && (next == text.len() || text[next] == '#')) {
            return false;
        }
    }
    let start: usize = find_host(&text, from, end);
    let stop: usize = find_host_end(&text, start, end);
    let labels = split_labels(&text, start, stop);
    decide_miscased(&labels)
}

/// Decides whether the parser of base URLs panics on an endpoint.
pub fn would_panic(endpoint: &str) -> (result: bool)
    ensures
        result == panics_parser(endpoint@),
{
    has_miscased_host(endpoint) && parses_as_uri(endpoint)
}

/// Whether `word` stands in `text` from position `at` on, in either case.
pub open spec fn stands_at(text: Seq<char>, word: Seq<char>, at: int) -> bool {
    &&& 0 <= at
    &&& at + word.len() <= text.len()
    &&& forall|k: int|
        0 <= k < word.len() ==> (#[trigger] word[k] == text[at + k] || 'A' <= text[at + k] <= 'Z'
            && text[at + k] as u32 + 32 == word[k] as u32)
}

/// Without a capital letter in it no endpoint is miscased.
pub proof fn lemma_small_letters_are_fine(text: Seq<char>)
    requires
        forall|i: int| 0 <= i < text.len() ==> !('A' <= #[trigger] text[i] <= 'Z'),
    ensures
        !is_miscased(text),
        !panics_parser(text),
{
    lemma_spans(text);
    let from = authority_start(text);
    let end = authority_end(text, from);
    let start = host_start(text, from, end);
    let stop = host_end(text, start, end);
    let host = host_of(text);
    assert forall|i: int| 0 <= i < host.len() implies !is_capital(#[trigger] host[i]) by {
        assert(host[i] == text[start + i]);
    }
    lemma_labels_are_of_host(host);
    let labels = labels_of(host);
    let before = labels.take(labels.len() - domain_labels(labels));
    assert forall|i: int, k: int|
        0 <= i < before.len() && 0 <= k < before[i].len() implies !is_capital(
        #[trigger] before[i][k],
    ) by {
        assert(before[i] == labels[i]);
        assert(host.contains(labels[i][k]));
    }
    lemma_case_does_not_count(before);
}

/// Where there is no capital letter, it makes no difference whether case counts.
proof fn lemma_case_does_not_count(labels: Seq<Seq<char>>)
    requires
        forall|i: int, k: int|
            0 <= i < labels.len() && 0 <= k < labels[i].len() ==> !is_capital(
                #[trigger] labels[i][k],
            ),
    ensures
        has_s3_labels(labels, true) ==> has_s3_labels(labels, false),
{
    reveal_strlit("s3");
    reveal_strlit("s3-control");
    reveal_strlit("bucket");
    reveal_strlit("accesspoint");
    reveal_strlit("vpce");
}

/// The parts of an endpoint lie one behind the other.
proof fn lemma_spans(text: Seq<char>)
    ensures
        ({
            let from = authority_start(text);
            let end = authority_end(text, from);
            let start = host_start(text, from, end);
            let stop = host_end(text, start, end);
            0 <= from <= start <= stop <= end <= text.len()
        }),
{
    reveal_strlit("http://");
    reveal_strlit("https://");
    let from = authority_start(text);
    lemma_authority_end(text, from);
    let end = authority_end(text, from);
    lemma_host_start(text, from, end);
    let start = host_start(text, from, end);
    lemma_host_end(text, start, end);
}

/// The authority ends at the first character that ends one.
proof fn lemma_authority_end(text: Seq<char>, from: int)
    requires
        0 <= from <= text.len(),
    ensures
        from <= authority_end(text, from) <= text.len(),
        forall|i: int|
            from <= i < authority_end(text, from) ==> !ends_authority(#[trigger] text[i]),
        authority_end(text, from) < text.len() ==> ends_authority(
            text[authority_end(text, from)],
        ),
    decreases text.len() - from,
{
    if from < text.len() && !ends_authority(text[from]) {
        lemma_authority_end(text, from + 1);
    }
}

/// The host starts behind the last `@`.
proof fn lemma_host_start(text: Seq<char>, from: int, end: int)
    requires
        0 <= from <= end <= text.len(),
    ensures
        from <= host_start(text, from, end) <= end,
        forall|i: int| host_start(text, from, end) <= i < end ==> #[trigger] text[i] != '@',
        host_start(text, from, end) > from ==> text[host_start(text, from, end) - 1] == '@',
    decreases end - from,
{
    if from < end && text[end - 1] != '@' {
        lemma_host_start(text, from, end - 1);
    }
}

/// The host ends at the first colon.
proof fn lemma_host_end(text: Seq<char>, from: int, end: int)
    requires
        0 <= from <= end <= text.len(),
    ensures
        from <= host_end(text, from, end) <= end,
        forall|i: int| from <= i < host_end(text, from, end) ==> #[trigger] text[i] != ':',
        host_end(text, from, end) < end ==> text[host_end(text, from, end)] == ':',
    decreases end - from,
{
    if from < end && text[from] != ':' {
        lemma_host_end(text, from + 1, end);
    }
}

/// Labels are made of the characters of the host.
proof fn lemma_labels_are_of_host(host: Seq<char>)
    ensures
        labels_of(host).len() >= 1,
        forall|i: int, k: int|
            0 <= i < labels_of(host).len() && 0 <= k < labels_of(host)[i].len() ==> host.contains(
                #[trigger] labels_of(host)[i][k],
            ),
    decreases host.len(),
{
    if host.len() > 0 {
        let shorter = host.drop_last();
        lemma_labels_are_of_host(shorter);
        let before = labels_of(shorter);
        assert forall|i: int, k: int|
            0 <= i < labels_of(host).len() && 0 <= k < labels_of(host)[i].len() implies
            host.contains(#[trigger] labels_of(host)[i][k]) by {
            let c = labels_of(host)[i][k];
            if i < before.len() && k < before[i].len() && before[i][k] == c {
                assert(shorter.contains(before[i][k]));
                let at = choose|at: int| 0 <= at < shorter.len() && shorter[at] == c;
                assert(host[at] == c);
            } else {
                assert(c == host.last());
                assert(host[host.len() - 1] == c);
            }
        }
    }
}

/// Labels written one behind the other, with a dot between each two.
pub open spec fn joined(labels: Seq<Seq<char>>) -> Seq<char>
    decreases labels.len(),
{
    if labels.len() == 0 {
        Seq::empty()
    } else if labels.len() == 1 {
        labels[0]
    } else {
        joined(labels.drop_last()) + seq!['.'] + labels.last()
    }
}

/// A host is its labels with the dots between them.
proof fn lemma_labels_joined(host: Seq<char>)
    ensures
        labels_of(host).len() >= 1,
        joined(labels_of(host)) == host,
    decreases host.len(),
{
    if host.len() == 0 {
        assert(joined(labels_of(host)) == host);
    } else {
        let shorter = host.drop_last();
        lemma_labels_joined(shorter);
        let before = labels_of(shorter);
        let labels = labels_of(host);
        assert(host == shorter.push(host.last()));
        if host.last() == '.' {
            assert(labels.drop_last() == before);
            assert(joined(labels) == host);
        } else {
            assert(labels.drop_last() == before.drop_last());
            if before.len() == 1 {
                assert(joined(labels) == host);
            } else {
                assert(joined(labels) == host);
            }
        }
    }
}

/// An endpoint is miscased only where Amazon's domain stands in it.
pub proof fn lemma_miscased_is_amazon(text: Seq<char>)
    requires
        is_miscased(text),
    ensures
        exists|at: int| stands_at(text, ".amazonaws.com"@, at),
{
    reveal_strlit(".amazonaws.com");
    reveal_strlit("amazonaws");
    reveal_strlit("com");
    reveal_strlit("cn");
    lemma_spans(text);
    let from = authority_start(text);
    let end = authority_end(text, from);
    let start = host_start(text, from, end);
    let host = host_of(text);
    lemma_labels_joined(host);
    let labels = labels_of(host);
    let n = labels.len() as int;
    let d = domain_labels(labels);
    let before = labels.take(n - d);
    assert(before.len() >= 1);
    let short = if d == 2 {
        labels
    } else {
        labels.drop_last()
    };
    let m = short.len() as int;
    let head = joined(short.drop_last().drop_last());
    assert(short.drop_last().len() >= 2);
    assert(joined(short.drop_last()) == head + seq!['.'] + short[m - 2]);
    assert(joined(short) == head + seq!['.'] + short[m - 2] + seq!['.'] + short[m - 1]);
    assert(joined(short).is_prefix_of(host)) by {
        if d == 3 {
            assert(host == joined(short) + (seq!['.'] + labels.last()));
        }
        assert(joined(short) == host.take(joined(short).len() as int));
    }
    let at = start + head.len() as int;
    let word = ".amazonaws.com"@;
    let tail = seq!['.'] + short[m - 2] + seq!['.'] + short[m - 1];
    assert forall|k: int| 0 <= k < word.len() implies (#[trigger] word[k] == text[at + k] || 'A'
        <= text[at + k] <= 'Z' && text[at + k] as u32 + 32 == word[k] as u32) by {
        assert(joined(short)[head.len() + k] == tail[k]);
        assert(joined(short)[head.len() + k] == host[head.len() + k]);
        assert(host[head.len() + k] == text[at + k]);
        if 1 <= k <= 9 {
            assert(same_letter(short[m - 2][k - 1], "amazonaws"@[k - 1], true));
        }
        if 11 <= k {
            assert(same_letter(short[m - 1][k - 11], "com"@[k - 11], true));
        }
    }
    assert(stands_at(text, word, at));
}

/// An endpoint with a path or a query is never miscased: apart from the two
/// slashes of a scheme there is at most one slash, at the end, or before a
/// fragment, and no question mark before one.
pub proof fn lemma_miscased_has_no_path(text: Seq<char>, i: int)
    requires
        is_miscased(text),
        0 <= i < text.len(),
        forall|j: int| 0 <= j <= i ==> #[trigger] text[j] != '#',
    ensures
        text[i] != '?',
        text[i] == '/' && i >= 8 ==> i + 1 == text.len() || text[i + 1] == '#',
{
    reveal_strlit("http://");
    reveal_strlit("https://");
    lemma_spans(text);
    let from = authority_start(text);
    lemma_authority_end(text, from);
    let end = authority_end(text, from);
    if i < from {
        assert(same_letter(text[i], if from == 7 {
            "http://"@[i]
        } else {
            "https://"@[i]
        }, true));
    } else if i >= end {
        assert(text[end] != '#');
        assert(ends_authority(text[end]));
        if i > end {
            assert(text[end + 1] != '#');
        }
    } else {
        assert(!ends_authority(text[i]));
    }
}

/// The first label of a host is what stands before its first dot.
proof fn lemma_first_label(host: Seq<char>, n: int)
    requires
        0 <= n < host.len(),
        host[n] == '.',
        forall|i: int| 0 <= i < n ==> #[trigger] host[i] != '.',
    ensures
        labels_of(host).len() >= 2,
        labels_of(host)[0] == host.take(n),
    decreases host.len(),
{
    let shorter = host.drop_last();
    if n == host.len() - 1 {
        lemma_only_label(shorter);
        assert(shorter == host.take(n));
    } else {
        lemma_first_label(shorter, n);
        assert(shorter.take(n) == host.take(n));
    }
}

/// A host without a dot is one label.
proof fn lemma_only_label(host: Seq<char>)
    requires
        forall|i: int| 0 <= i < host.len() ==> #[trigger] host[i] != '.',
    ensures
        labels_of(host) == seq![host],
    decreases host.len(),
{
    if host.len() > 0 {
        let shorter = host.drop_last();
        lemma_only_label(shorter);
        assert(host[host.len() - 1] != '.');
        assert(shorter.push(host.last()) == host);
        assert(labels_of(host) == seq![host]);
    } else {
        assert(host == Seq::<char>::empty());
        assert(labels_of(host) == seq![host]);
    }
}

/// An endpoint whose host begins with `s3.` in small letters is not miscased,
/// whatever capital letters follow.
pub proof fn lemma_small_s3_is_fine(scheme: Seq<char>, rest: Seq<char>)
    requires
        scheme == "https://"@ || scheme == "http://"@ || scheme.len() == 0,
        !rest.contains('@'),
    ensures
        !is_miscased(scheme + "s3."@ + rest),
{
    reveal_strlit("http://");
    reveal_strlit("https://");
    reveal_strlit("s3.");
    reveal_strlit("s3");
    let text = scheme + "s3."@ + rest;
    let s = scheme.len() as int;
    assert(text[s] == 's' && text[s + 1] == '3' && text[s + 2] == '.');
    assert(authority_start(text) == s) by {
        if s == 0 {
            assert(!same_letter(text[0], "http://"@[0], true));
            assert(!same_letter(text[0], "https://"@[0], true));
        } else if s == 8 {
            assert(text[4] == 's');
            assert(!same_letter(text[4], "http://"@[4], true));
            assert forall|k: int| 0 <= k < 8 implies same_letter(
                #[trigger] text[k],
                "https://"@[k],
                true,
            ) by {}
        } else {
            assert forall|k: int| 0 <= k < 7 implies same_letter(
                #[trigger] text[k],
                "http://"@[k],
                true,
            ) by {}
        }
    }
    lemma_spans(text);
    lemma_authority_end(text, s);
    let end = authority_end(text, s);
    assert(end >= s + 3);
    lemma_host_start(text, s, end);
    let start = host_start(text, s, end);
    assert(start == s) by {
        if start > s {
            if start - 1 >= s + 3 {
                assert(text[start - 1] == rest[start - 1 - s - 3]);
            }
        }
    }
    lemma_host_end(text, start, end);
    assert(host_end(text, start, end) >= s + 3);
    let host = host_of(text);
    assert(host[0] == 's' && host[1] == '3' && host[2] == '.');
    lemma_first_label(host, 2);
    assert(host.take(2) == "s3"@);
    let labels = labels_of(host);
    let before = labels.take(labels.len() - domain_labels(labels));
    if before.len() >= 1 {
        assert(is_tagged(before[0], "s3"@, false));
    }
}

/// The labels of a host that is written of labels without dots are these.
pub proof fn lemma_labels_of_joined(labels: Seq<Seq<char>>)
    requires
        labels.len() >= 1,
        forall|i: int| 0 <= i < labels.len() ==> !(#[trigger] labels[i]).contains('.'),
    ensures
        labels_of(joined(labels)) == labels,
    decreases labels.len(),
{
    if labels.len() == 1 {
        assert forall|i: int| 0 <= i < labels[0].len() implies #[trigger] labels[0][i] != '.' by {
            assert(labels[0].contains(labels[0][i]));
        }
        lemma_only_label(labels[0]);
        assert(labels == seq![labels[0]]);
    } else {
        let before = labels.drop_last();
        assert forall|i: int| 0 <= i < before.len() implies !(#[trigger] before[i]).contains(
            '.',
        ) by {
            assert(!labels[i].contains('.'));
        }
        lemma_labels_of_joined(before);
        let last = labels.last();
        assert(!labels[labels.len() - 1].contains('.'));
        lemma_labels_behind_dot(joined(before), last);
        assert(joined(labels) == joined(before) + seq!['.'] + last);
        assert(before.push(last) == labels);
    }
}

/// A dot and a label behind a host are one label more.
proof fn lemma_labels_behind_dot(host: Seq<char>, label: Seq<char>)
    requires
        !label.contains('.'),
    ensures
        labels_of(host + seq!['.'] + label) == labels_of(host).push(label),
    decreases label.len(),
{
    let whole = host + seq!['.'] + label;
    if label.len() == 0 {
        assert(whole.drop_last() == host);
        assert(label == Seq::<char>::empty());
    } else {
        let shorter = label.drop_last();
        assert(label.contains(label.last()));
        assert forall|c: char| shorter.contains(c) implies label.contains(c) by {
            let i = choose|i: int| 0 <= i < shorter.len() && shorter[i] == c;
            assert(label[i] == c);
        }
        lemma_labels_behind_dot(host, shorter);
        assert(whole.drop_last() == host + seq!['.'] + shorter);
        assert(labels_of(host).push(shorter).drop_last() == labels_of(host));
        assert(shorter.push(label.last()) == label);
    }
}

/// Whether `label` is made of letters and digits, as many as a label may have.
pub open spec fn is_plain_label(label: Seq<char>) -> bool {
    &&& 1 <= label.len() <= 63
    &&& forall|k: int|
        0 <= k < label.len() ==> ('a' <= #[trigger] label[k] <= 'z' || 'A' <= label[k] <= 'Z'
            || '0' <= label[k] <= '9')
}

/// Every host that begins with a capital `S3` label and ends with Amazon's
/// domain is miscased, with or without a scheme, and whatever plain labels stand
/// between.
pub proof fn lemma_capital_s3_is_miscased(scheme: Seq<char>, labels: Seq<Seq<char>>)
    requires
        scheme == "https://"@ || scheme == "http://"@ || scheme.len() == 0,
        labels.len() >= 3,
        labels[0] == "S3"@,
        labels[labels.len() - 2] == "amazonaws"@,
        labels[labels.len() - 1] == "com"@,
        forall|i: int| 0 <= i < labels.len() ==> is_plain_label(#[trigger] labels[i]),
    ensures
        is_miscased(scheme + joined(labels)),
{
    reveal_strlit("http://");
    reveal_strlit("https://");
    reveal_strlit("S3");
    reveal_strlit("s3");
    reveal_strlit("s3-control");
    reveal_strlit("amazonaws");
    reveal_strlit("com");
    reveal_strlit("bucket");
    reveal_strlit("accesspoint");
    reveal_strlit("vpce-_");
    reveal_strlit("s3-control-_");
    reveal_strlit("s3-_");
    let host = joined(labels);
    let text = scheme + host;
    let s = scheme.len() as int;
    let n = labels.len() as int;
    assert forall|i: int| 0 <= i < n implies !(#[trigger] labels[i]).contains('.') by {
        assert(is_plain_label(labels[i]));
    }
    lemma_labels_of_joined(labels);
    lemma_joined_is_plain(labels);
    lemma_joined_starts(labels);
    assert(host[0] == 'S');
    assert(forall|i: int| 0 <= i < host.len() ==> #[trigger] text[s + i] == host[i]);
    assert(authority_start(text) == s) by {
        if s == 0 {
            assert(text[0] == host[0]);
            assert(!same_letter(text[0], "http://"@[0], true));
            assert(!same_letter(text[0], "https://"@[0], true));
        } else if s == 8 {
            assert(text[4] == 's');
            assert(!same_letter(text[4], "http://"@[4], true));
            assert forall|k: int| 0 <= k < 8 implies same_letter(
                #[trigger] text[k],
                "https://"@[k],
                true,
            ) by {}
        } else {
            assert forall|k: int| 0 <= k < 7 implies same_letter(
                #[trigger] text[k],
                "http://"@[k],
                true,
            ) by {}
        }
    }
    assert forall|i: int| s <= i < text.len() implies !ends_authority(#[trigger] text[i])
        && text[i] != '@' && text[i] != ':' by {
        assert(text[i] == host[i - s]);
    }
    lemma_spans(text);
    lemma_authority_end(text, s);
    let end = authority_end(text, s);
    assert(end == text.len());
    lemma_host_start(text, s, end);
    assert(host_start(text, s, end) == s);
    lemma_host_end(text, s, end);
    assert(host_end(text, s, end) == end);
    assert(host_of(text) == host);
    assert(domain_labels(labels) == 2);
    let before = labels.take(n - 2);
    assert forall|i: int| 0 <= i < n implies is_sound_label(#[trigger] labels[i]) by {
        lemma_plain_is_sound(labels[i]);
    }
    assert(before[0] == labels[0]);
    assert(is_tagged(before[0], "s3"@, true));
    assert(!has_s3_labels(before, false)) by {
        assert(!same_letter(before[0][0], "s3"@[0], false));
        assert(!(is_name_char(before[0][0], false) || before[0][0] == '-'));
        assert(!is_label(before[0], false));
        assert(before[0].len() == 2);
    }
}

/// A label of letters and digits can stand in the host name of an S3 endpoint.
proof fn lemma_plain_is_sound(label: Seq<char>)
    requires
        is_plain_label(label),
    ensures
        is_sound_label(label),
{
    reveal_strlit("vpce-_");
    reveal_strlit("s3-control-_");
    reveal_strlit("s3-_");
    assert(!is_joint(label[0]));
    assert(!is_joint(label[label.len() - 1]));
    if label.len() >= 6 {
        assert(!same_letter(label[4], "vpce-_"@[4], true));
    }
    if label.len() >= 4 {
        assert(!same_letter(label[2], "s3-_"@[2], true));
    }
    if label.len() >= 12 {
        assert(!same_letter(label[2], "s3-control-_"@[2], true));
    }
}

/// Plain labels with dots between them hold nothing that ends a host.
proof fn lemma_joined_is_plain(labels: Seq<Seq<char>>)
    requires
        forall|i: int| 0 <= i < labels.len() ==> is_plain_label(#[trigger] labels[i]),
    ensures
        forall|k: int|
            0 <= k < joined(labels).len() ==> !ends_authority(#[trigger] joined(labels)[k])
                && joined(labels)[k] != '@' && joined(labels)[k] != ':',
    decreases labels.len(),
{
    if labels.len() == 1 {
        assert(is_plain_label(labels[0]));
    } else if labels.len() > 1 {
        let before = labels.drop_last();
        assert forall|i: int| 0 <= i < before.len() implies is_plain_label(
            #[trigger] before[i],
        ) by {
            assert(is_plain_label(labels[i]));
        }
        lemma_joined_is_plain(before);
        assert(is_plain_label(labels[labels.len() - 1]));
        assert forall|k: int| 0 <= k < joined(labels).len() implies !ends_authority(
            #[trigger] joined(labels)[k],
        ) && joined(labels)[k] != '@' && joined(labels)[k] != ':' by {
            let m = joined(before).len();
            if k < m {
                assert(joined(labels)[k] == joined(before)[k]);
            } else if k == m {
                assert(joined(labels)[k] == '.');
            } else {
                assert(joined(labels)[k] == labels.last()[k - m - 1]);
            }
        }
    }
}

/// Labels with dots between them begin as the first label does.
proof fn lemma_joined_starts(labels: Seq<Seq<char>>)
    requires
        labels.len() >= 1,
        labels[0].len() >= 1,
    ensures
        joined(labels).len() >= 1,
        joined(labels)[0] == labels[0][0],
    decreases labels.len(),
{
    if labels.len() > 1 {
        lemma_joined_starts(labels.drop_last());
    }
}

/// The parser panics on texts that are URIs and no others, and of these on those
/// with a miscased host; and that is what is found out before it is asked.
pub proof fn lemma_panic_is_foreseen(endpoint: &str, miscased: bool, foreseen: bool)
    requires
        call_ensures(has_miscased_host, (endpoint,), miscased),
        call_ensures(would_panic, (endpoint,), foreseen),
    ensures
        foreseen <==> panics_parser(endpoint@),
        !is_uri(endpoint@) ==> !foreseen,
        is_uri(endpoint@) ==> foreseen == miscased,
        (forall|i: int| 0 <= i < endpoint@.len() ==> !('A' <= #[trigger] endpoint@[i] <= 'Z'))
            ==> !miscased,
        miscased ==> exists|at: int| stands_at(endpoint@, ".amazonaws.com"@, at),
{
    if forall|i: int| 0 <= i < endpoint@.len() ==> !('A' <= #[trigger] endpoint@[i] <= 'Z') {
        lemma_small_letters_are_fine(endpoint@);
    }
    if miscased {
        lemma_miscased_is_amazon(endpoint@);
    }
}

} // verus!
