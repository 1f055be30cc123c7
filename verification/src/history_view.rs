//! The state of the history panel: the entries shown, the search and method
//! filter, the entry whose response is open, and pending deletions.
use vstd::prelude::*;

use crate::collection_view::keep_where;
use crate::database::RequestHistoryEntry;
use crate::text::{chars_of, contains, contains_chars, dec, dec_string, eq_ignore_ascii_case, eq_ignore_case, lowercase_of, push_dec, push_str, string_of, to_lowercase};

verus! {

/// What the user did in the history panel.
#[derive(Debug, Clone)]
pub enum Message {
    ResendEntry(i32),
    RequestDeleteEntry(i32),
    ConfirmDeleteEntry(i32),
    CancelDeleteEntry,
    RequestClearHistory,
    ConfirmClearHistory,
    CancelClearHistory,
    SearchChanged(String),
    FilterMethod(String),
    ExportHistory,
    ViewResponse(i32),
    CloseResponse,
}

/// The history panel.
#[derive(Debug, Clone)]
pub struct HistoryView {
    pub entries: Vec<RequestHistoryEntry>,
    pub selected_index: Option<usize>,
    pub search_query: String,
    pub filter_method: String,
    pub viewing_response: Option<RequestHistoryEntry>,
    pub pending_delete_entry: Option<i32>,
    pub pending_clear_history: bool,
}

/// An optional text contains `q` after lowercasing; absent texts do not.
pub open spec fn opt_lower_contains(d: Option<String>, q: Seq<char>) -> bool {
    match d {
        Some(x) => contains(lowercase_of(x@), q),
        None => false,
    }
}

/// An entry matches a search when the search is empty, or when its URL,
/// method, request data or response data contains the search, all
/// lowercased.
pub open spec fn matches_search(e: RequestHistoryEntry, query: Seq<char>) -> bool {
    query.len() == 0 || {
        let q = lowercase_of(query);
        contains(lowercase_of(e.url@), q) || contains(lowercase_of(e.method@), q)
            || opt_lower_contains(e.request_data, q) || opt_lower_contains(e.response_data, q)
    }
}

/// An entry matches a method filter when the filter is empty or names its
/// method, ignoring ASCII case.
pub open spec fn matches_method(e: RequestHistoryEntry, method: Seq<char>) -> bool {
    method.len() == 0 || eq_ignore_case(e.method@, method)
}

/// The entries shown for a search and a method filter, in order.
pub open spec fn shown_entries(
    s: Seq<RequestHistoryEntry>,
    query: Seq<char>,
    method: Seq<char>,
) -> Seq<RequestHistoryEntry> {
    keep_where(s, |e: RequestHistoryEntry| matches_search(e, query) && matches_method(e, method))
}

/// The position of the first entry with id `id`, or -1.
pub open spec fn entry_pos(s: Seq<RequestHistoryEntry>, id: i32) -> int
    decreases s.len(),
{
    if s.len() == 0 {
        -1
    } else if entry_pos(s.drop_last(), id) >= 0 {
        entry_pos(s.drop_last(), id)
    } else if s.last().id == id {
        s.len() - 1
    } else {
        -1
    }
}

proof fn lemma_entry_pos(s: Seq<RequestHistoryEntry>, id: i32)
    ensures
        -1 <= entry_pos(s, id) < s.len(),
        entry_pos(s, id) >= 0 ==> s[entry_pos(s, id)].id == id,
        forall|j: int|
            0 <= j < s.len() && (entry_pos(s, id) < 0 || j < entry_pos(s, id)) ==> s[j].id != id,
    decreases s.len(),
{
    if s.len() > 0 {
        lemma_entry_pos(s.drop_last(), id);
        assert forall|j: int| 0 <= j < s.len() - 1 implies s[j] == s.drop_last()[j] by {}
    }
}

/// What handling message `m` does to the panel `v`: `w` is the new panel and
/// `ret` the id of an entry to send again, if any.
pub open spec fn history_update(v: HistoryView, m: Message, w: HistoryView, ret: Option<i32>) -> bool {
    match m {
        Message::ResendEntry(id) => ret == Some(id) && w == v,
        Message::RequestDeleteEntry(id) => ret is None && w == (HistoryView {
            pending_delete_entry: Some(id),
            ..v
        }),
        Message::ConfirmDeleteEntry(id) => ret is None && w == (HistoryView {
            pending_delete_entry: None,
            entries: w.entries,
            selected_index: None,
            viewing_response: match v.viewing_response {
                Some(e) => if e.id == id {
                    None
                } else {
                    Some(e)
                },
                None => None,
            },
            ..v
        }) && w.entries@ == keep_where(v.entries@, |e: RequestHistoryEntry| e.id != id),
        Message::CancelDeleteEntry => ret is None && w == (HistoryView {
            pending_delete_entry: None,
            ..v
        }),
        Message::RequestClearHistory => ret is None && w == (HistoryView {
            pending_clear_history: true,
            ..v
        }),
        Message::ConfirmClearHistory => ret is None && w == (HistoryView {
            pending_clear_history: false,
            entries: w.entries,
            selected_index: None,
            search_query: w.search_query,
            filter_method: w.filter_method,
            viewing_response: None,
            ..v
        }) && w.entries@.len() == 0 && w.search_query@.len() == 0 && w.filter_method@.len() == 0,
        Message::CancelClearHistory => ret is None && w == (HistoryView {
            pending_clear_history: false,
            ..v
        }),
        Message::SearchChanged(q) => ret is None && w == (HistoryView { search_query: q, ..v }),
        Message::FilterMethod(method) => ret is None && if v.filter_method@ == method@ {
            w == (HistoryView { filter_method: w.filter_method, ..v }) && w.filter_method@.len()
                == 0
        } else {
            w == (HistoryView { filter_method: method, ..v })
        },
        Message::ViewResponse(id) => ret is None && {
            let p = entry_pos(v.entries@, id);
            w == (HistoryView {
                viewing_response: if p >= 0 {
                    Some(v.entries@[p])
                } else {
                    None
                },
                ..v
            })
        },
        Message::CloseResponse => ret is None && w == (HistoryView { viewing_response: None, ..v }),
        Message::ExportHistory => ret is None && w == v,
    }
}

fn dup_opt(s: &Option<String>) -> (r: Option<String>)
    ensures
        r == *s,
{
    match s {
        Some(x) => Some(x.clone()),
        None => None,
    }
}

fn dup_entry(e: &RequestHistoryEntry) -> (r: RequestHistoryEntry)
    ensures
        r == *e,
{
    RequestHistoryEntry {
        id: e.id,
        method: e.method.clone(),
        url: e.url.clone(),
        status: e.status,
        duration_ms: e.duration_ms,
        timestamp: e.timestamp.clone(),
        request_data: dup_opt(&e.request_data),
        response_data: dup_opt(&e.response_data),
    }
}

fn opt_contains_lower(d: &Option<String>, q: &[char]) -> (r: bool)
    ensures
        r == opt_lower_contains(*d, q@),
{
    match d {
        Some(x) => {
            let l = to_lowercase(x.as_str());
            contains_chars(&chars_of(l.as_str()), q)
        },
        None => false,
    }
}

/// The status shown for an entry: its code, or `N/A`.
pub open spec fn status_label(status: Option<u16>) -> Seq<char> {
    match status {
        Some(s) => dec(s as nat),
        None => "N/A"@,
    }
}

/// The duration shown for an entry: milliseconds with `ms`, or `N/A`.
pub open spec fn duration_label(duration_ms: Option<u64>) -> Seq<char> {
    match duration_ms {
        Some(d) => dec(d as nat) + "ms"@,
        None => "N/A"@,
    }
}

/// The body shown for a stored response: its first 2000 characters,
/// followed by `...` when the body is longer than 2000 bytes.
pub open spec fn body_preview_of(body: Seq<char>) -> Seq<char> {
    let shown = body.take(if body.len() < 2000 {
        body.len() as int
    } else {
        2000
    });
    if (vstd::utf8::encode_utf8(body).len() as usize) > 2000 {
        shown + "..."@
    } else {
        shown
    }
}

/// The status and duration shown for an entry (see `status_label` and
/// `duration_label`).
pub fn entry_labels(entry: &RequestHistoryEntry) -> (r: (String, String))
    ensures
        r.0@ == status_label(entry.status),
        r.1@ == duration_label(entry.duration_ms),
{
    let status = match entry.status {
        Some(s) => dec_string(s as u64),
        None => string_of(&chars_of("N/A")),
    };
    let duration = match entry.duration_ms {
        Some(d) => {
            let mut v: Vec<char> = Vec::new();
            push_dec(&mut v, d);
            push_str(&mut v, "ms");
            string_of(&v)
        },
        None => string_of(&chars_of("N/A")),
    };
    (status, duration)
}

/// The body shown for a stored response (see `body_preview_of`).
pub fn body_preview(body: &str) -> (r: String)
    ensures
        r@ == body_preview_of(body@),
{
    let c = chars_of(body);
    let n: usize = if c.len() < 2000 {
        c.len()
    } else {
        2000
    };
    let mut shown = crate::text::sub_chars(&c, 0, n);
    proof {
        assert(shown@ =~= body@.take(n as int));
    }
    if body.len() > 2000 {
        push_str(&mut shown, "...");
    }
    string_of(&shown)
}

impl HistoryView {
    fn entry_index(&self, id: i32) -> (r: Option<usize>)
        ensures
            match r {
                Some(i) => i < self.entries@.len() && i as int == entry_pos(self.entries@, id),
                None => entry_pos(self.entries@, id) < 0,
            },
    {
        proof {
            lemma_entry_pos(self.entries@, id);
        }
        let mut i: usize = 0;
        while i < self.entries.len()
            invariant
                i <= self.entries@.len(),
                forall|j: int| 0 <= j < i ==> self.entries@[j].id != id,
                -1 <= entry_pos(self.entries@, id) < self.entries@.len(),
                entry_pos(self.entries@, id) >= 0 ==> self.entries@[entry_pos(self.entries@, id)].id == id,
                forall|j: int|
                    0 <= j < self.entries@.len() && (entry_pos(self.entries@, id) < 0 || j < entry_pos(
                        self.entries@,
                        id,
                    )) ==> self.entries@[j].id != id,
            decreases self.entries.len() - i,
        {
            if self.entries[i].id == id {
                return Some(i);
            }
            i = i + 1;
        }
        None
    }

    /// An empty panel: no entries, nothing selected, open or pending, empty
    /// search and filter.
    pub fn new() -> (r: Self)
        ensures
            r.entries@.len() == 0,
            r.selected_index is None,
            r.search_query@.len() == 0,
            r.filter_method@.len() == 0,
            r.viewing_response is None,
            r.pending_delete_entry is None,
            !r.pending_clear_history,
    {
        HistoryView {
            entries: Vec::new(),
            selected_index: None,
            search_query: String::new(),
            filter_method: String::new(),
            viewing_response: None,
            pending_delete_entry: None,
            pending_clear_history: false,
        }
    }

    /// The entries that match the search and the method filter, in order
    /// (see `shown_entries`).
    pub fn filtered_entries(&self) -> (r: Vec<&RequestHistoryEntry>)
        ensures
            r@.len() == shown_entries(self.entries@, self.search_query@, self.filter_method@).len(),
            forall|i: int|
                0 <= i < r@.len() ==> *r@[i] == shown_entries(
                    self.entries@,
                    self.search_query@,
                    self.filter_method@,
                )[i],
    {
        let ghost pred = |e: RequestHistoryEntry|
            matches_search(e, self.search_query@) && matches_method(e, self.filter_method@);
        let q = chars_of(self.search_query.as_str());
        let lq = to_lowercase(self.search_query.as_str());
        let ql = chars_of(lq.as_str());
        let fm = chars_of(self.filter_method.as_str());
        let mut out: Vec<&RequestHistoryEntry> = Vec::new();
        let mut i: usize = 0;
        proof {
            assert(self.entries@.take(0) =~= Seq::<RequestHistoryEntry>::empty());
        }
        while i < self.entries.len()
            invariant
                i <= self.entries@.len(),
                pred == (|e: RequestHistoryEntry|
                    matches_search(e, self.search_query@) && matches_method(
                        e,
                        self.filter_method@,
                    )),
                q@ == self.search_query@,
                ql@ == lowercase_of(self.search_query@),
                fm@ == self.filter_method@,
                out@.len() == keep_where(self.entries@.take(i as int), pred).len(),
                forall|k: int|
                    0 <= k < out@.len() ==> *out@[k] == keep_where(
                        self.entries@.take(i as int),
                        pred,
                    )[k],
            decreases self.entries.len() - i,
        {
            let e = &self.entries[i];
            let search_ok = if q.len() == 0 {
                true
            } else {
                let u = to_lowercase(e.url.as_str());
                let m = to_lowercase(e.method.as_str());
                contains_chars(&chars_of(u.as_str()), &ql) || contains_chars(
                    &chars_of(m.as_str()),
                    &ql,
                ) || opt_contains_lower(&e.request_data, &ql) || opt_contains_lower(
                    &e.response_data,
                    &ql,
                )
            };
            let method_ok = if fm.len() == 0 {
                true
            } else {
                eq_ignore_ascii_case(&chars_of(e.method.as_str()), &fm)
            };
            proof {
                assert(self.entries@.take(i as int + 1).drop_last() =~= self.entries@.take(i as int));
                assert(self.entries@.take(i as int + 1).last() == self.entries@[i as int]);
                assert(pred(self.entries@[i as int]) == (search_ok && method_ok));
            }
            if search_ok && method_ok {
                out.push(e);
            }
            i = i + 1;
        }
        proof {
            assert(self.entries@.take(i as int) =~= self.entries@);
        }
        out
    }

    /// Handles a message (see `history_update`); returns the id of an entry
    /// to send again, if any.
    pub fn update(&mut self, message: Message) -> (r: Option<i32>)
        ensures
            history_update(*old(self), message, *final(self), r),
    {
        match message {
            Message::ResendEntry(entry_id) => Some(entry_id),
            Message::RequestDeleteEntry(entry_id) => {
                self.pending_delete_entry = Some(entry_id);
                None
            },
            Message::ConfirmDeleteEntry(entry_id) => {
                self.pending_delete_entry = None;
                let ghost p = |e: RequestHistoryEntry| e.id != entry_id;
                let mut kept: Vec<RequestHistoryEntry> = Vec::new();
                let mut i: usize = 0;
                proof {
                    assert(self.entries@.take(0) =~= Seq::<RequestHistoryEntry>::empty());
                }
                while i < self.entries.len()
                    invariant
                        i <= self.entries@.len(),
                        p == (|e: RequestHistoryEntry| e.id != entry_id),
                        kept@ == keep_where(self.entries@.take(i as int), p),
                    decreases self.entries.len() - i,
                {
                    proof {
                        assert(self.entries@.take(i as int + 1).drop_last() =~= self.entries@.take(
                            i as int,
                        ));
                    }
                    if self.entries[i].id != entry_id {
                        kept.push(dup_entry(&self.entries[i]));
                    }
                    i = i + 1;
                }
                proof {
                    assert(self.entries@.take(i as int) =~= self.entries@);
                }
                self.entries = kept;
                self.selected_index = None;
                let close = match &self.viewing_response {
                    Some(e) => e.id == entry_id,
                    None => false,
                };
                if close {
                    self.viewing_response = None;
                }
                None
            },
            Message::CancelDeleteEntry => {
                self.pending_delete_entry = None;
                None
            },
            Message::RequestClearHistory => {
                self.pending_clear_history = true;
                None
            },
            Message::ConfirmClearHistory => {
                self.pending_clear_history = false;
                self.entries = Vec::new();
                self.selected_index = None;
                self.search_query = String::new();
                self.filter_method = String::new();
                self.viewing_response = None;
                None
            },
            Message::CancelClearHistory => {
                self.pending_clear_history = false;
                None
            },
            Message::SearchChanged(query) => {
                self.search_query = query;
                None
            },
            Message::FilterMethod(method) => {
                let same = crate::text::str_eq(self.filter_method.as_str(), method.as_str());
                if same {
                    self.filter_method = String::new();
                } else {
                    self.filter_method = method;
                }
                None
            },
            Message::ExportHistory => None,
            Message::ViewResponse(entry_id) => {
                let found = match self.entry_index(entry_id) {
                    Some(i) => Some(dup_entry(&self.entries[i])),
                    None => None,
                };
                self.viewing_response = found;
                None
            },
            Message::CloseResponse => {
                self.viewing_response = None;
                None
            },
        }
    }
}

proof fn lemma_keep_where_keeps<T>(s: Seq<T>, p: spec_fn(T) -> bool, i: int)
    requires
        0 <= i < s.len(),
        p(s[i]),
    ensures
        keep_where(s, p).contains(s[i]),
    decreases s.len(),
{
    if i < s.len() - 1 {
        lemma_keep_where_keeps(s.drop_last(), p, i);
        assert(s.drop_last()[i] == s[i]);
        let k = choose|k: int| 0 <= k < keep_where(s.drop_last(), p).len() && keep_where(
            s.drop_last(),
            p,
        )[k] == s[i];
        if p(s.last()) {
            assert(keep_where(s, p)[k] == s[i]);
        }
    } else {
        let t = keep_where(s, p);
        assert(t[t.len() - 1] == s[i]);
    }
}

/// The history search finds text in an entry's stored response: an entry
/// whose response data, lowercased, contains the lowercased search text is
/// shown, whenever its method passes the filter (no filter, or the same
/// method ignoring ASCII case).
pub proof fn lemma_search_finds_response_data(
    s: Seq<RequestHistoryEntry>,
    query: Seq<char>,
    method: Seq<char>,
    i: int,
    data: String,
)
    requires
        0 <= i < s.len(),
        s[i].response_data == Some(data),
        contains(lowercase_of(data@), lowercase_of(query)),
        method.len() == 0 || eq_ignore_case(s[i].method@, method),
    ensures
        shown_entries(s, query, method).contains(s[i]),
{
    let p = |e: RequestHistoryEntry| matches_search(e, query) && matches_method(e, method);
    assert(p(s[i]));
    lemma_keep_where_keeps(s, p, i);
}

/// Likewise for the stored request data.
pub proof fn lemma_search_finds_request_data(
    s: Seq<RequestHistoryEntry>,
    query: Seq<char>,
    method: Seq<char>,
    i: int,
    data: String,
)
    requires
        0 <= i < s.len(),
        s[i].request_data == Some(data),
        contains(lowercase_of(data@), lowercase_of(query)),
        method.len() == 0 || eq_ignore_case(s[i].method@, method),
    ensures
        shown_entries(s, query, method).contains(s[i]),
{
    let p = |e: RequestHistoryEntry| matches_search(e, query) && matches_method(e, method);
    assert(p(s[i]));
    lemma_keep_where_keeps(s, p, i);
}

proof fn lemma_keep_where_all<T>(s: Seq<T>, p: spec_fn(T) -> bool)
    requires
        forall|i: int| 0 <= i < s.len() ==> p(#[trigger] s[i]),
    ensures
        keep_where(s, p) == s,
    decreases s.len(),
{
    if s.len() > 0 {
        let d = s.drop_last();
        assert forall|i: int| 0 <= i < d.len() implies p(#[trigger] d[i]) by {
            assert(d[i] == s[i]);
        }
        lemma_keep_where_all(d, p);
        assert(p(s[s.len() - 1]));
        assert(d.push(s.last()) =~= s);
    }
}

proof fn lemma_keep_where_from<T>(s: Seq<T>, p: spec_fn(T) -> bool)
    ensures
        forall|k: int|
            0 <= k < keep_where(s, p).len() ==> p(#[trigger] keep_where(s, p)[k]) && s.contains(
                keep_where(s, p)[k],
            ),
    decreases s.len(),
{
    if s.len() > 0 {
        let d = s.drop_last();
        lemma_keep_where_from(d, p);
        let r = keep_where(s, p);
        let rd = keep_where(d, p);
        assert forall|k: int| 0 <= k < r.len() implies p(#[trigger] r[k]) && s.contains(r[k]) by {
            if k < rd.len() {
                assert(r[k] == rd[k]);
                let m = choose|m: int| 0 <= m < d.len() && d[m] == rd[k];
                assert(s[m] == d[m]);
            } else {
                assert(r[k] == s[s.len() - 1]);
            }
        }
    }
}

/// With no search text and no method filter every entry is shown, in order.
pub proof fn lemma_no_search_shows_all(s: Seq<RequestHistoryEntry>)
    ensures
        shown_entries(s, Seq::empty(), Seq::empty()) == s,
{
    let p = |e: RequestHistoryEntry| matches_search(e, Seq::empty()) && matches_method(
        e,
        Seq::empty(),
    );
    lemma_keep_where_all(s, p);
}

/// Every shown entry is one of the entries, and its method is the filtered
/// one, ignoring ASCII case, whenever a method filter is set.
pub proof fn lemma_shown_pass_method_filter(
    s: Seq<RequestHistoryEntry>,
    query: Seq<char>,
    method: Seq<char>,
)
    ensures
        forall|k: int|
            0 <= k < shown_entries(s, query, method).len() ==> s.contains(
                #[trigger] shown_entries(s, query, method)[k],
            ) && (method.len() == 0 || eq_ignore_case(
                shown_entries(s, query, method)[k].method@,
                method,
            )),
{
    let p = |e: RequestHistoryEntry| matches_search(e, query) && matches_method(e, method);
    lemma_keep_where_from(s, p);
}

} // verus!
