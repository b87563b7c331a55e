use vstd::prelude::*;
use vstd::string::*;
use crate::decimal::{decimal, decimal_string};
use crate::error::TsugiError;
use crate::plugin::{PluginTask, PluginTaskView};

verus! {

// ---------------------------------------------------------------------------
// serde_json
// ---------------------------------------------------------------------------

/// A parsed JSON document of serde_json; opaque here.
#[verifier::external_type_specification]
#[verifier::external_body]
pub struct ExJsonValue(serde_json::Value);

/// The error serde_json reports for text it cannot parse; opaque here.
#[verifier::external_type_specification]
#[verifier::external_body]
pub struct ExJsonError(serde_json::Error);

/// What `serde_json::from_str` gives for the text: the document or the error.
pub uninterp spec fn json_parse_of(text: Seq<char>) -> Result<serde_json::Value, serde_json::Error>;

/// Whether serde_json parses the text as a JSON document.
pub open spec fn json_text_parses(text: Seq<char>) -> bool {
    json_parse_of(text) is Ok
}

/// Calls `serde_json::from_str` for a `serde_json::Value`. The claim: the result,
/// the document or the error, is a function of the text alone, named `json_parse_of`.
#[verifier::external_body]
fn parse_json(text: &str) -> (r: Result<serde_json::Value, serde_json::Error>)
    ensures
        r == json_parse_of(text@),
{
    serde_json::from_str(text)
}

/// The member `key` of a JSON value, as `Index<&str>` gives it.
pub uninterp spec fn json_member_of(value: serde_json::Value, key: Seq<char>) -> serde_json::Value;

/// Calls `Index<&str>` on a `serde_json::Value`: the member `key` of an object,
/// `Null` where there is none. The claim: the result is a function of the value and
/// the key alone, named `json_member_of`.
#[verifier::external_body]
fn json_member<'a>(value: &'a serde_json::Value, key: &str) -> (r: &'a serde_json::Value)
    ensures
        *r == json_member_of(*value, key@),
{
    &value[key]
}

/// The elements a JSON value holds, as `as_array` gives them.
pub uninterp spec fn json_array_of(value: serde_json::Value) -> Option<Seq<serde_json::Value>>;

/// Calls `serde_json::Value::as_array`: the elements of an array, `None` for
/// anything else. The claim: the result is a function of the value alone, named
/// `json_array_of`.
#[verifier::external_body]
fn json_array(value: &serde_json::Value) -> (r: Option<&Vec<serde_json::Value>>)
    ensures
        match r {
            Some(a) => json_array_of(*value) == Some(a@),
            None => json_array_of(*value) is None,
        },
{
    value.as_array()
}

/// The integer a JSON value holds, as `as_i64` gives it.
pub uninterp spec fn json_i64_of(value: serde_json::Value) -> Option<i64>;

/// Calls `serde_json::Value::as_i64`: an integer that fits in `i64`, `None` for
/// anything else. The claim: the result is a function of the value alone, named
/// `json_i64_of`.
#[verifier::external_body]
fn json_i64(value: &serde_json::Value) -> (r: Option<i64>)
    ensures
        r == json_i64_of(*value),
{
    value.as_i64()
}

/// The text a JSON value holds, as `as_str` gives it.
pub uninterp spec fn json_str_of(value: serde_json::Value) -> Option<Seq<char>>;

/// Calls `serde_json::Value::as_str`: the text of a string, `None` for anything
/// else. The claim: the result is a function of the value alone, named `json_str_of`.
#[verifier::external_body]
fn json_str(value: &serde_json::Value) -> (r: Option<&str>)
    ensures
        match r {
            Some(t) => json_str_of(*value) == Some(t@),
            None => json_str_of(*value) is None,
        },
{
    value.as_str()
}

/// `message` is the text serde_json's `Display` gives the error `e`.
pub open spec fn is_display_of(e: serde_json::Error, message: Seq<char>) -> bool {
    exists|s: String| #[trigger] to_string_from_display_ensures::<serde_json::Error>(&e, s) && message == s@
}

/// `message` is the text serde_json's `Display` gives the error of parsing `text`.
pub open spec fn parse_failure_message(text: Seq<char>, message: Seq<char>) -> bool {
    json_parse_of(text) matches Err(e) && is_display_of(e, message)
}

/// The error for text that serde_json cannot parse: its message is the text
/// serde_json's `Display` gives the error.
fn json_error(e: serde_json::Error) -> (r: TsugiError)
    ensures
        is_display_of(e, r@),
{
    let s = e.to_string();
    let r = TsugiError::new(s);
    assert(to_string_from_display_ensures::<serde_json::Error>(&e, s) && r@ == s@);
    r
}

// ---------------------------------------------------------------------------
// Search results
// ---------------------------------------------------------------------------

/// The views of an optional text.
pub open spec fn opt_view(s: Option<String>) -> Option<Seq<char>> {
    match s {
        Some(x) => Some(x@),
        None => None,
    }
}

/// What the application reads of one item of a GitHub issue search:
/// each field is `None` where the item has no value of the expected type.
pub struct SearchItem {
    pub number: Option<i64>,
    pub html_url: Option<String>,
    pub title: Option<String>,
    pub state: Option<String>,
    pub created_at: Option<String>,
    pub updated_at: Option<String>,
    pub closed_at: Option<String>,
    pub user_login: Option<String>,
}

/// The mathematical value of a `SearchItem`.
pub struct SearchItemView {
    pub number: Option<i64>,
    pub html_url: Option<Seq<char>>,
    pub title: Option<Seq<char>>,
    pub state: Option<Seq<char>>,
    pub created_at: Option<Seq<char>>,
    pub updated_at: Option<Seq<char>>,
    pub closed_at: Option<Seq<char>>,
    pub user_login: Option<Seq<char>>,
}

impl View for SearchItem {
    type V = SearchItemView;

    open spec fn view(&self) -> SearchItemView {
        SearchItemView {
            number: self.number,
            html_url: opt_view(self.html_url),
            title: opt_view(self.title),
            state: opt_view(self.state),
            created_at: opt_view(self.created_at),
            updated_at: opt_view(self.updated_at),
            closed_at: opt_view(self.closed_at),
            user_login: opt_view(self.user_login),
        }
    }
}

/// The views of a sequence of search items.
pub open spec fn item_views(items: Seq<SearchItem>) -> Seq<SearchItemView> {
    items.map_values(|i: SearchItem| i@)
}

/// The text of an optional field, `none` where it is missing.
pub open spec fn or_none(s: Option<Seq<char>>) -> Seq<char> {
    match s {
        Some(x) => x,
        None => "none"@,
    }
}

/// The task a search item stands for: none for an item without a number;
/// otherwise the number's decimal text is the key, a missing text field reads
/// `none`, and the description is the word `description`.
pub open spec fn item_task(item: SearchItemView) -> Option<PluginTaskView> {
    match item.number {
        None => None,
        Some(n) => Some(
            PluginTaskView {
                key: decimal(n as int),
                url: or_none(item.html_url),
                title: or_none(item.title),
                description: "description"@,
                state: or_none(item.state),
                created_at: or_none(item.created_at),
                updated_at: or_none(item.updated_at),
                closed_at: or_none(item.closed_at),
                requestor: or_none(item.user_login),
            },
        ),
    }
}

/// The tasks that search items stand for, in their order, skipping items without a number.
pub open spec fn items_tasks(items: Seq<SearchItemView>) -> Seq<PluginTaskView>
    decreases items.len(),
{
    if items.len() == 0 {
        Seq::empty()
    } else {
        match item_task(items.last()) {
            Some(t) => items_tasks(items.drop_last()).push(t),
            None => items_tasks(items.drop_last()),
        }
    }
}

/// How many search items have no number.
pub open spec fn unnumbered(items: Seq<SearchItemView>) -> nat
    decreases items.len(),
{
    if items.len() == 0 {
        0
    } else if items.last().number is None {
        unnumbered(items.drop_last()) + 1
    } else {
        unnumbered(items.drop_last())
    }
}

/// Every search item stands for a task or has no number: the tasks of the items and
/// the items without a number together are as many as the items.
pub proof fn law_items_are_tasks_or_unnumbered(items: Seq<SearchItemView>)
    ensures
        items_tasks(items).len() + unnumbered(items) == items.len(),
    decreases items.len(),
{
    if items.len() > 0 {
        law_items_are_tasks_or_unnumbered(items.drop_last());
    }
}

/// The task of a search item takes each text field from the item's field of the same
/// name (the requestor from the login), `none` where that is missing, and its key
/// from the item's number; an item without a number stands for no task.
pub proof fn law_task_fields_from_same_named_item_fields(item: SearchItemView)
    ensures
        item_task(item) is Some <==> item.number is Some,
        item_task(item) matches Some(t) ==> {
            &&& item.number matches Some(n) && t.key == decimal(n as int)
            &&& t.description == "description"@
            &&& t.url == (match item.html_url { Some(x) => x, None => "none"@ })
            &&& t.title == (match item.title { Some(x) => x, None => "none"@ })
            &&& t.state == (match item.state { Some(x) => x, None => "none"@ })
            &&& t.created_at == (match item.created_at { Some(x) => x, None => "none"@ })
            &&& t.updated_at == (match item.updated_at { Some(x) => x, None => "none"@ })
            &&& t.closed_at == (match item.closed_at { Some(x) => x, None => "none"@ })
            &&& t.requestor == (match item.user_login { Some(x) => x, None => "none"@ })
        },
{
}

/// The text of an optional field, `none` where it is missing.
fn text_or_none(s: &Option<String>) -> (r: String)
    ensures
        r@ == or_none(opt_view(*s)),
{
    broadcast use vstd::string::group_string_axioms;
    match s {
        Some(x) => x.clone(),
        None => "none".to_string(),
    }
}

/// The task a search item stands for, if it has a number.
pub fn task_from_item(item: &SearchItem) -> (r: Option<PluginTask>)
    ensures
        match r {
            Some(t) => item_task(item@) == Some(t@),
            None => item_task(item@) is None,
        },
        r is None <==> item.number is None,
        match r {
            Some(t) => {
                &&& item.number matches Some(n) && t.key@ == decimal(n as int)
                &&& t.description@ == "description"@
                &&& t.url@ == (match item.html_url { Some(x) => x@, None => "none"@ })
                &&& t.title@ == (match item.title { Some(x) => x@, None => "none"@ })
                &&& t.state@ == (match item.state { Some(x) => x@, None => "none"@ })
                &&& t.created_at@ == (match item.created_at { Some(x) => x@, None => "none"@ })
                &&& t.updated_at@ == (match item.updated_at { Some(x) => x@, None => "none"@ })
                &&& t.closed_at@ == (match item.closed_at { Some(x) => x@, None => "none"@ })
                &&& t.requestor@ == (match item.user_login { Some(x) => x@, None => "none"@ })
            },
            None => true,
        },
{
    broadcast use vstd::string::group_string_axioms;
    match item.number {
        None => None,
        Some(n) => Some(
            PluginTask {
                key: decimal_string(n),
                url: text_or_none(&item.html_url),
                title: text_or_none(&item.title),
                description: "description".to_string(),
                state: text_or_none(&item.state),
                created_at: text_or_none(&item.created_at),
                updated_at: text_or_none(&item.updated_at),
                closed_at: text_or_none(&item.closed_at),
                requestor: text_or_none(&item.user_login),
            },
        ),
    }
}

/// The tasks that search items stand for, in their order, skipping items without a number.
pub fn tasks_from_items(items: &Vec<SearchItem>) -> (r: Vec<PluginTask>)
    ensures
        r@.map_values(|t: PluginTask| t@) == items_tasks(item_views(items@)),
{
    let ghost iv = item_views(items@);
    let mut r: Vec<PluginTask> = Vec::new();
    let mut i: usize = 0;
    while i < items.len()
        invariant
            i <= items.len(),
            iv == item_views(items@),
            r@.map_values(|t: PluginTask| t@) == items_tasks(iv.take(i as int)),
        decreases items.len() - i,
    {
        assert(iv.take(i + 1).drop_last() =~= iv.take(i as int));
        assert(iv.take(i + 1).last() == items@[i as int]@);
        let ghost before = r@;
        match task_from_item(&items[i]) {
            Some(t) => {
                let ghost tv = t@;
                r.push(t);
                assert(r@.map_values(|t: PluginTask| t@) =~= before.map_values(|t: PluginTask| t@).push(tv));
            },
            None => {},
        }
        i = i + 1;
    }
    assert(iv.take(items.len() as int) =~= iv);
    r
}

/// How many search items have no number, and so stand for no task.
pub fn items_without_number(items: &Vec<SearchItem>) -> (n: usize)
    ensures
        n == unnumbered(item_views(items@)),
{
    let ghost iv = item_views(items@);
    let mut n: usize = 0;
    let mut i: usize = 0;
    while i < items.len()
        invariant
            i <= items.len(),
            iv == item_views(items@),
            n == unnumbered(iv.take(i as int)),
            n <= i,
        decreases items.len() - i,
    {
        assert(iv.take(i + 1).drop_last() =~= iv.take(i as int));
        assert(iv.take(i + 1).last() == items@[i as int]@);
        if items[i].number.is_none() {
            n = n + 1;
        }
        i = i + 1;
    }
    assert(iv.take(items.len() as int) =~= iv);
    n
}

/// The text of a JSON value that is a string.
fn json_text(value: &serde_json::Value) -> (r: Option<String>)
    ensures
        opt_view(r) == json_str_of(*value),
{
    broadcast use vstd::string::group_string_axioms;
    match json_str(value) {
        Some(s) => Some(s.to_string()),
        None => None,
    }
}

/// The text of member `key` of a JSON value, where it is a string.
pub open spec fn member_text(value: serde_json::Value, key: Seq<char>) -> Option<Seq<char>> {
    json_str_of(json_member_of(value, key))
}

/// What the application reads of a JSON value as an item of a search result:
/// the integer `number`, the texts `html_url`, `title`, `state`, `created_at`,
/// `updated_at`, `closed_at`, and the text `login` of the member `user`.
pub open spec fn json_item_view(value: serde_json::Value) -> SearchItemView {
    SearchItemView {
        number: json_i64_of(json_member_of(value, "number"@)),
        html_url: member_text(value, "html_url"@),
        title: member_text(value, "title"@),
        state: member_text(value, "state"@),
        created_at: member_text(value, "created_at"@),
        updated_at: member_text(value, "updated_at"@),
        closed_at: member_text(value, "closed_at"@),
        user_login: member_text(json_member_of(value, "user"@), "login"@),
    }
}

/// The elements of the `items` array of a JSON text; none where the text is not
/// JSON or has no such array.
pub open spec fn json_body_items(text: Seq<char>) -> Seq<serde_json::Value> {
    match json_parse_of(text) {
        Ok(v) => match json_array_of(json_member_of(v, "items"@)) {
            Some(a) => a,
            None => Seq::empty(),
        },
        Err(_) => Seq::empty(),
    }
}

/// What the application reads of the items of a search response text.
pub open spec fn body_item_views(text: Seq<char>) -> Seq<SearchItemView> {
    json_body_items(text).map_values(|v: serde_json::Value| json_item_view(v))
}

/// Each field of a search item is read from the member of the same name: the number
/// is the integer of `number`, each text the text of its own member, and the login
/// the text of `login` inside `user`; no other member counts.
pub proof fn law_item_fields_are_same_named_members(value: serde_json::Value)
    ensures
        json_item_view(value).number == json_i64_of(json_member_of(value, "number"@)),
        json_item_view(value).html_url == json_str_of(json_member_of(value, "html_url"@)),
        json_item_view(value).title == json_str_of(json_member_of(value, "title"@)),
        json_item_view(value).state == json_str_of(json_member_of(value, "state"@)),
        json_item_view(value).created_at == json_str_of(json_member_of(value, "created_at"@)),
        json_item_view(value).updated_at == json_str_of(json_member_of(value, "updated_at"@)),
        json_item_view(value).closed_at == json_str_of(json_member_of(value, "closed_at"@)),
        json_item_view(value).user_login == json_str_of(json_member_of(json_member_of(value, "user"@), "login"@)),
{
}

/// What the application reads of one item of a search result.
fn read_search_item(item: &serde_json::Value) -> (r: SearchItem)
    ensures
        r@ == json_item_view(*item),
        r.number == json_i64_of(json_member_of(*item, "number"@)),
        opt_view(r.html_url) == json_str_of(json_member_of(*item, "html_url"@)),
        opt_view(r.title) == json_str_of(json_member_of(*item, "title"@)),
        opt_view(r.state) == json_str_of(json_member_of(*item, "state"@)),
        opt_view(r.created_at) == json_str_of(json_member_of(*item, "created_at"@)),
        opt_view(r.updated_at) == json_str_of(json_member_of(*item, "updated_at"@)),
        opt_view(r.closed_at) == json_str_of(json_member_of(*item, "closed_at"@)),
        opt_view(r.user_login) == json_str_of(json_member_of(json_member_of(*item, "user"@), "login"@)),
{
    SearchItem {
        number: json_i64(json_member(item, "number")),
        html_url: json_text(json_member(item, "html_url")),
        title: json_text(json_member(item, "title")),
        state: json_text(json_member(item, "state")),
        created_at: json_text(json_member(item, "created_at")),
        updated_at: json_text(json_member(item, "updated_at")),
        closed_at: json_text(json_member(item, "closed_at")),
        user_login: json_text(json_member(json_member(item, "user"), "login")),
    }
}

/// The items of a GitHub issue search response: one per element of its `items`
/// array, in order, none where there is no such array. Fails exactly when the body
/// is not JSON, with serde_json's message.
pub fn parse_search_items(body: &str) -> (r: Result<Vec<SearchItem>, TsugiError>)
    ensures
        r is Err <==> !json_text_parses(body@),
        r matches Ok(items) ==> item_views(items@) == body_item_views(body@),
        r matches Err(e) ==> parse_failure_message(body@, e@),
{
    let json = match parse_json(body) {
        Ok(v) => v,
        Err(e) => {
            return Err(json_error(e));
        },
    };
    let ghost target = body_item_views(body@);
    let mut items: Vec<SearchItem> = Vec::new();
    match json_array(json_member(&json, "items")) {
        None => {
            assert(item_views(items@) =~= target);
        },
        Some(elements) => {
            let ghost ev = elements@;
            assert(target =~= ev.map_values(|v: serde_json::Value| json_item_view(v)));
            let mut i: usize = 0;
            while i < elements.len()
                invariant
                    i <= elements.len(),
                    ev == elements@,
                    target == ev.map_values(|v: serde_json::Value| json_item_view(v)),
                    item_views(items@) == target.take(i as int),
                decreases elements.len() - i,
            {
                let item = read_search_item(&elements[i]);
                let ghost before = items@;
                let ghost iv = item@;
                items.push(item);
                assert(item_views(items@) =~= item_views(before).push(iv));
                assert(target.take(i + 1) =~= target.take(i as int).push(iv));
                i = i + 1;
            }
            assert(target.take(elements.len() as int) =~= target);
        },
    }
    Ok(items)
}

/// The tasks of a GitHub issue search response: those of the items of its `items`
/// array that have a number, in order. Fails exactly when the body is not JSON,
/// with serde_json's message.
pub fn search_response_tasks(body: &str) -> (r: Result<Vec<PluginTask>, TsugiError>)
    ensures
        r is Err <==> !json_text_parses(body@),
        r matches Ok(ts) ==> ts@.map_values(|t: PluginTask| t@) == items_tasks(body_item_views(body@)),
        r matches Err(e) ==> parse_failure_message(body@, e@),
{
    match parse_search_items(body) {
        Ok(items) => Ok(tasks_from_items(&items)),
        Err(e) => Err(e),
    }
}

/// The login of the user that a GitHub `/user` response describes: the text of its
/// `login` member, none where that is not text. Fails exactly when the body is not
/// JSON, with serde_json's message.
pub fn user_login(body: &str) -> (r: Result<Option<String>, TsugiError>)
    ensures
        r is Err <==> !json_text_parses(body@),
        r matches Ok(u) ==> json_parse_of(body@) matches Ok(v) && opt_view(u) == member_text(v, "login"@),
        r matches Err(e) ==> parse_failure_message(body@, e@),
{
    match parse_json(body) {
        Ok(v) => Ok(json_text(json_member(&v, "login"))),
        Err(e) => Err(json_error(e)),
    }
}

// ---------------------------------------------------------------------------
// Requests
// ---------------------------------------------------------------------------

/// The address of GitHub's issue search for `query`.
pub fn search_issues_url(query: &str) -> (r: String)
    ensures
        r@ == "https://api.github.com/search/issues?q="@ + query@,
{
    broadcast use vstd::string::group_string_axioms;
    let mut r: String = "https://api.github.com/search/issues?q=".to_string();
    r.append(query);
    r
}

/// The search for open pull requests in unarchived repositories that ask `user` for a review.
pub fn review_requested_query(user: &str) -> (r: String)
    ensures
        r@ == "is:pr+is:open+archived:false+review-requested:"@ + user@,
{
    broadcast use vstd::string::group_string_axioms;
    let mut r: String = "is:pr+is:open+archived:false+review-requested:".to_string();
    r.append(user);
    r
}

/// The search for open pull requests in unarchived repositories that `user` wrote.
pub fn authored_query(user: &str) -> (r: String)
    ensures
        r@ == "is:pr+is:open+archived:false+author:"@ + user@,
{
    broadcast use vstd::string::group_string_axioms;
    let mut r: String = "is:pr+is:open+archived:false+author:".to_string();
    r.append(user);
    r
}

} // verus!
