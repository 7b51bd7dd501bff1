//! Modal popup state: create/edit dialogs for groups and feeds.
//!
//! A popup owns its input fields; the router feeds it characters and
//! editing keys and takes the confirmed values back out.

use vstd::prelude::*;

use crate::format::{is_ws, is_ws_exec};

verus! {

/// An active popup modal.
pub enum Popup {
    /// Create a group, with the name typed so far.
    CreateGroup { input: String },
    /// Create a feed: title, site URL and feed URL fields, with one selected.
    CreateFeed { title: String, url: String, feed_url: String, selected_field: usize },
    /// Edit a feed, identified by its original URL, with pre-filled fields.
    EditFeed {
        original_url: String,
        title: String,
        url: String,
        feed_url: String,
        selected_field: usize,
    },
    /// Rename a group, identified by its original path.
    EditGroup { original_path: String, input: String },
}

/// Mathematical image of a [`Popup`].
#[verifier::ext_equal]
pub enum PopupV {
    CreateGroup { input: Seq<char> },
    CreateFeed { title: Seq<char>, url: Seq<char>, feed_url: Seq<char>, selected_field: usize },
    EditFeed {
        original_url: Seq<char>,
        title: Seq<char>,
        url: Seq<char>,
        feed_url: Seq<char>,
        selected_field: usize,
    },
    EditGroup { original_path: Seq<char>, input: Seq<char> },
}

impl View for Popup {
    type V = PopupV;

    open spec fn view(&self) -> PopupV {
        match self {
            Popup::CreateGroup { input } => PopupV::CreateGroup { input: input@ },
            Popup::CreateFeed { title, url, feed_url, selected_field } => PopupV::CreateFeed {
                title: title@,
                url: url@,
                feed_url: feed_url@,
                selected_field: *selected_field,
            },
            Popup::EditFeed { original_url, title, url, feed_url, selected_field } => {
                PopupV::EditFeed {
                    original_url: original_url@,
                    title: title@,
                    url: url@,
                    feed_url: feed_url@,
                    selected_field: *selected_field,
                }
            },
            Popup::EditGroup { original_path, input } => PopupV::EditGroup {
                original_path: original_path@,
                input: input@,
            },
        }
    }
}

/// Is a typed character accepted into an input field?  Newlines, tabs and
/// control characters are ignored.
pub open spec fn accepts_char(c: char) -> bool {
    c != '\n' && c != '\t' && !((c as u32) < 32 || ((c as u32) >= 127 && (c as u32) < 160))
}

/// The popup after a typed character: appended to the selected field when
/// accepted, ignored otherwise.
pub open spec fn char_applied(o: PopupV, n: PopupV, c: char) -> bool {
    if !accepts_char(c) {
        n == o
    } else {
        match o {
            PopupV::CreateGroup { input } => n == (PopupV::CreateGroup { input: input.push(c) }),
            PopupV::EditGroup { original_path, input } => n == (PopupV::EditGroup {
                original_path,
                input: input.push(c),
            }),
            PopupV::CreateFeed { title, url, feed_url, selected_field } => n == (
            PopupV::CreateFeed {
                title: if selected_field == 0 { title.push(c) } else { title },
                url: if selected_field == 1 { url.push(c) } else { url },
                feed_url: if selected_field == 2 { feed_url.push(c) } else { feed_url },
                selected_field,
            }),
            PopupV::EditFeed { original_url, title, url, feed_url, selected_field } => n == (
            PopupV::EditFeed {
                original_url,
                title: if selected_field == 0 { title.push(c) } else { title },
                url: if selected_field == 1 { url.push(c) } else { url },
                feed_url: if selected_field == 2 { feed_url.push(c) } else { feed_url },
                selected_field,
            }),
        }
    }
}

/// A field with its last character removed; unchanged when empty.
pub open spec fn popped(s: Seq<char>) -> Seq<char> {
    if s.len() == 0 {
        s
    } else {
        s.take(s.len() as int - 1)
    }
}

/// The popup after a backspace: the selected field loses its last
/// character, every other field stays; a field index out of range changes
/// nothing.
pub open spec fn backspace_applied(o: PopupV, n: PopupV) -> bool {
    match o {
        PopupV::CreateGroup { input } => n == (PopupV::CreateGroup { input: popped(input) }),
        PopupV::EditGroup { original_path, input } => n == (PopupV::EditGroup {
            original_path,
            input: popped(input),
        }),
        PopupV::CreateFeed { title, url, feed_url, selected_field } => n == (PopupV::CreateFeed {
            title: if selected_field == 0 { popped(title) } else { title },
            url: if selected_field == 1 { popped(url) } else { url },
            feed_url: if selected_field == 2 { popped(feed_url) } else { feed_url },
            selected_field,
        }),
        PopupV::EditFeed { original_url, title, url, feed_url, selected_field } => n == (
        PopupV::EditFeed {
            original_url,
            title: if selected_field == 0 { popped(title) } else { title },
            url: if selected_field == 1 { popped(url) } else { url },
            feed_url: if selected_field == 2 { popped(feed_url) } else { feed_url },
            selected_field,
        }),
    }
}

/// The popup after a forward field move: the cursor advances and wraps in
/// the multi-field popups, nothing changes elsewhere.
pub open spec fn tab_applied(o: PopupV, n: PopupV) -> bool {
    match o {
        PopupV::CreateFeed { title, url, feed_url, selected_field } => n == (PopupV::CreateFeed {
            title,
            url,
            feed_url,
            selected_field: if selected_field >= 2 {
                0usize
            } else {
                (selected_field + 1) as usize
            },
        }),
        PopupV::EditFeed { original_url, title, url, feed_url, selected_field } => n == (
        PopupV::EditFeed {
            original_url,
            title,
            url,
            feed_url,
            selected_field: if selected_field >= 2 {
                0usize
            } else {
                (selected_field + 1) as usize
            },
        }),
        _ => n == o,
    }
}

/// The popup after a backward field move.
pub open spec fn backtab_applied(o: PopupV, n: PopupV) -> bool {
    match o {
        PopupV::CreateFeed { title, url, feed_url, selected_field } => n == (PopupV::CreateFeed {
            title,
            url,
            feed_url,
            selected_field: if selected_field == 0 {
                2usize
            } else {
                (selected_field - 1) as usize
            },
        }),
        PopupV::EditFeed { original_url, title, url, feed_url, selected_field } => n == (
        PopupV::EditFeed {
            original_url,
            title,
            url,
            feed_url,
            selected_field: if selected_field == 0 {
                2usize
            } else {
                (selected_field - 1) as usize
            },
        }),
        _ => n == o,
    }
}

impl Popup {
    /// A fresh create-group popup.
    pub fn create_group() -> (r: Self)
        ensures
            r@ == (PopupV::CreateGroup { input: Seq::<char>::empty() }),
    {
        let r = Popup::CreateGroup { input: String::new() };
        r
    }

    /// A fresh create-feed popup, with the title field selected.
    pub fn create_feed() -> (r: Self)
        ensures
            r@ == (PopupV::CreateFeed {
                title: Seq::<char>::empty(),
                url: Seq::<char>::empty(),
                feed_url: Seq::<char>::empty(),
                selected_field: 0usize,
            }),
    {
        Popup::CreateFeed {
            title: String::new(),
            url: String::new(),
            feed_url: String::new(),
            selected_field: 0,
        }
    }

    /// An edit-feed popup with pre-filled fields.
    pub fn edit_feed(original_url: String, title: String, url: String, feed_url: Option<String>) -> (r: Self)
        ensures
            r@ == (PopupV::EditFeed {
                original_url: original_url@,
                title: title@,
                url: url@,
                feed_url: match feed_url {
                    Some(u) => u@,
                    None => Seq::<char>::empty(),
                },
                selected_field: 0usize,
            }),
    {
        Popup::EditFeed {
            original_url,
            title,
            url,
            feed_url: match feed_url {
                Some(u) => u,
                None => String::new(),
            },
            selected_field: 0,
        }
    }

    /// An edit-group popup with the current title pre-filled.
    pub fn edit_group(original_path: String, title: String) -> (r: Self)
        ensures
            r@ == (PopupV::EditGroup { original_path: original_path@, input: title@ }),
    {
        Popup::EditGroup { original_path, input: title }
    }

    /// The popup's window title.
    pub fn title(&self) -> (r: &'static str)
        ensures
            self@ is CreateGroup ==> r@ == "Create Group"@,
            self@ is CreateFeed ==> r@ == "Create Feed"@,
            self@ is EditFeed ==> r@ == "Edit Feed"@,
            self@ is EditGroup ==> r@ == "Edit Group"@,
    {
        match self {
            Popup::CreateGroup { .. } => "Create Group",
            Popup::CreateFeed { .. } => "Create Feed",
            Popup::EditFeed { .. } => "Edit Feed",
            Popup::EditGroup { .. } => "Edit Group",
        }
    }

    /// Is this an edit popup?
    pub fn is_edit(&self) -> (r: bool)
        ensures
            r == (self@ is EditFeed || self@ is EditGroup),
    {
        match self {
            Popup::EditFeed { .. } => true,
            Popup::EditGroup { .. } => true,
            _ => false,
        }
    }

    /// Is this the create-feed popup?
    pub fn is_create_feed(&self) -> (r: bool)
        ensures
            r == (self@ is CreateFeed),
    {
        match self {
            Popup::CreateFeed { .. } => true,
            _ => false,
        }
    }

    /// Is this the edit-feed popup?
    pub fn is_edit_feed(&self) -> (r: bool)
        ensures
            r == (self@ is EditFeed),
    {
        match self {
            Popup::EditFeed { .. } => true,
            _ => false,
        }
    }

    /// Append a typed character to the selected field; newlines, tabs and
    /// control characters are ignored, and so is a field index out of range.
    pub fn handle_char(&mut self, c: char)
        ensures
            char_applied(old(self)@, final(self)@, c),
    {
        let u = c as u32;
        let ok = c != '\n' && c != '\t' && !(u < 32 || (u >= 127 && u < 160));
        if !ok {
            return ;
        }
        match self {
            Popup::CreateGroup { input } => {
                input.push(c);
            },
            Popup::EditGroup { input, .. } => {
                input.push(c);
            },
            Popup::CreateFeed { title, url, feed_url, selected_field } => {
                if *selected_field == 0 {
                    title.push(c);
                } else if *selected_field == 1 {
                    url.push(c);
                } else if *selected_field == 2 {
                    feed_url.push(c);
                }
            },
            Popup::EditFeed { title, url, feed_url, selected_field, .. } => {
                if *selected_field == 0 {
                    title.push(c);
                } else if *selected_field == 1 {
                    url.push(c);
                } else if *selected_field == 2 {
                    feed_url.push(c);
                }
            },
        }
    }

    /// Remove the last character of the selected field, if any.
    pub fn handle_backspace(&mut self)
        ensures
            backspace_applied(old(self)@, final(self)@),
    {
        match self {
            Popup::CreateGroup { input } => {
                pop_string(input);
            },
            Popup::EditGroup { input, .. } => {
                pop_string(input);
            },
            Popup::CreateFeed { title, url, feed_url, selected_field } => {
                if *selected_field == 0 {
                    pop_string(title);
                } else if *selected_field == 1 {
                    pop_string(url);
                } else if *selected_field == 2 {
                    pop_string(feed_url);
                }
            },
            Popup::EditFeed { title, url, feed_url, selected_field, .. } => {
                if *selected_field == 0 {
                    pop_string(title);
                } else if *selected_field == 1 {
                    pop_string(url);
                } else if *selected_field == 2 {
                    pop_string(feed_url);
                }
            },
        }
    }

    /// Move the field cursor forward, wrapping after the third field; only
    /// the multi-field popups react.
    pub fn handle_tab(&mut self)
        ensures
            tab_applied(old(self)@, final(self)@),
    {
        match self {
            Popup::CreateFeed { selected_field, .. } => {
                *selected_field = if *selected_field >= 2 {
                    0
                } else {
                    *selected_field + 1
                };
            },
            Popup::EditFeed { selected_field, .. } => {
                *selected_field = if *selected_field >= 2 {
                    0
                } else {
                    *selected_field + 1
                };
            },
            _ => {},
        }
    }

    /// Move the field cursor backward, wrapping before the first field; only
    /// the multi-field popups react.
    pub fn handle_backtab(&mut self)
        ensures
            backtab_applied(old(self)@, final(self)@),
    {
        match self {
            Popup::CreateFeed { selected_field, .. } => {
                *selected_field = if *selected_field == 0 {
                    2
                } else {
                    *selected_field - 1
                };
            },
            Popup::EditFeed { selected_field, .. } => {
                *selected_field = if *selected_field == 0 {
                    2
                } else {
                    *selected_field - 1
                };
            },
            _ => {},
        }
    }

    /// The single-field popups' current input; empty for the multi-field
    /// popups.
    pub fn input(&self) -> (r: &str)
        ensures
            match self@ {
                PopupV::CreateGroup { input } => r@ == input,
                PopupV::EditGroup { input, .. } => r@ == input,
                _ => r@ == Seq::<char>::empty(),
            },
    {
        match self {
            Popup::CreateGroup { input } => input.as_str(),
            Popup::EditGroup { input, .. } => input.as_str(),
            _ => {
                let r = "";
                proof {
                    reveal_strlit("");
                    assert(""@ =~= Seq::<char>::empty());
                }
                r
            },
        }
    }

    /// The identifying URL of the feed being edited.
    pub fn original_url(&self) -> (r: Option<&str>)
        ensures
            match self@ {
                PopupV::EditFeed { original_url, .. } => r matches Some(u) && u@ == original_url,
                _ => r is None,
            },
    {
        match self {
            Popup::EditFeed { original_url, .. } => Some(original_url.as_str()),
            _ => None,
        }
    }

    /// The identifying path of the group being renamed.
    pub fn original_path(&self) -> (r: Option<&str>)
        ensures
            match self@ {
                PopupV::EditGroup { original_path, .. } => r matches Some(p) && p@
                    == original_path,
                _ => r is None,
            },
    {
        match self {
            Popup::EditGroup { original_path, .. } => Some(original_path.as_str()),
            _ => None,
        }
    }

    /// The field labels of the multi-field popups.
    pub fn field_names(&self) -> (r: Option<Vec<&'static str>>)
        ensures
            match self@ {
                PopupV::CreateFeed { .. } => r matches Some(v) && v@.len() == 3 && v@[0]@
                    == "Title"@ && v@[1]@ == "URL"@ && v@[2]@ == "Feed URL"@,
                PopupV::EditFeed { .. } => r matches Some(v) && v@.len() == 3 && v@[0]@ == "Title"@
                    && v@[1]@ == "URL"@ && v@[2]@ == "Feed URL"@,
                _ => r is None,
            },
    {
        match self {
            Popup::CreateFeed { .. } => {
                let mut v: Vec<&'static str> = Vec::new();
                v.push("Title");
                v.push("URL");
                v.push("Feed URL");
                Some(v)
            },
            Popup::EditFeed { .. } => {
                let mut v: Vec<&'static str> = Vec::new();
                v.push("Title");
                v.push("URL");
                v.push("Feed URL");
                Some(v)
            },
            _ => None,
        }
    }

    /// The field values of the multi-field popups.
    pub fn field_values(&self) -> (r: Option<Vec<&str>>)
        ensures
            match self@ {
                PopupV::CreateFeed { title, url, feed_url, .. } => r matches Some(v) && v@.len()
                    == 3 && v@[0]@ == title && v@[1]@ == url && v@[2]@ == feed_url,
                PopupV::EditFeed { title, url, feed_url, .. } => r matches Some(v) && v@.len() == 3
                    && v@[0]@ == title && v@[1]@ == url && v@[2]@ == feed_url,
                _ => r is None,
            },
    {
        match self {
            Popup::CreateFeed { title, url, feed_url, .. } => {
                let mut v: Vec<&str> = Vec::new();
                v.push(title.as_str());
                v.push(url.as_str());
                v.push(feed_url.as_str());
                Some(v)
            },
            Popup::EditFeed { title, url, feed_url, .. } => {
                let mut v: Vec<&str> = Vec::new();
                v.push(title.as_str());
                v.push(url.as_str());
                v.push(feed_url.as_str());
                Some(v)
            },
            _ => None,
        }
    }

    /// The selected field index of the multi-field popups.
    pub fn selected_field(&self) -> (r: Option<usize>)
        ensures
            match self@ {
                PopupV::CreateFeed { selected_field, .. } => r == Some(selected_field),
                PopupV::EditFeed { selected_field, .. } => r == Some(selected_field),
                _ => r is None,
            },
    {
        match self {
            Popup::CreateFeed { selected_field, .. } => Some(*selected_field),
            Popup::EditFeed { selected_field, .. } => Some(*selected_field),
            _ => None,
        }
    }
}

/// The sequence with leading whitespace removed.
pub open spec fn trim_front(s: Seq<char>) -> Seq<char>
    decreases s.len(),
{
    if s.len() > 0 && is_ws(s[0]) {
        trim_front(s.skip(1))
    } else {
        s
    }
}

/// The sequence with trailing whitespace removed.
pub open spec fn trim_back(s: Seq<char>) -> Seq<char>
    decreases s.len(),
{
    if s.len() > 0 && is_ws(s[s.len() - 1]) {
        trim_back(s.take(s.len() as int - 1))
    } else {
        s
    }
}

/// The sequence with whitespace removed from both ends.
pub open spec fn trim_chars(s: Seq<char>) -> Seq<char> {
    trim_back(trim_front(s))
}

proof fn lemma_trim_front_skip(s: Seq<char>, i: int)
    requires
        0 <= i <= s.len(),
        forall|j: int| 0 <= j < i ==> is_ws(s[j]),
    ensures
        trim_front(s) == trim_front(s.skip(i)),
    decreases i,
{
    if i > 0 {
        assert(is_ws(s[0]));
        assert forall|j: int| 0 <= j < i - 1 implies is_ws(s.skip(1)[j]) by {
            assert(s.skip(1)[j] == s[j + 1]);
        }
        lemma_trim_front_skip(s.skip(1), i - 1);
        assert(s.skip(1).skip(i - 1) =~= s.skip(i));
    } else {
        assert(s.skip(0) =~= s);
    }
}

proof fn lemma_trim_back_take(s: Seq<char>, i: int)
    requires
        0 <= i <= s.len(),
        forall|j: int| i <= j < s.len() ==> is_ws(s[j]),
    ensures
        trim_back(s) == trim_back(s.take(i)),
    decreases s.len() - i,
{
    if i < s.len() {
        assert(is_ws(s[s.len() - 1]));
        assert forall|j: int| i <= j < s.take(s.len() as int - 1).len() implies is_ws(
            #[trigger] s.take(s.len() as int - 1)[j],
        ) by {
            assert(s.take(s.len() as int - 1)[j] == s[j]);
        }
        lemma_trim_back_take(s.take(s.len() as int - 1), i);
        assert(s.take(s.len() as int - 1).take(i) =~= s.take(i));
    } else {
        assert(s.take(i) =~= s);
    }
}


/// The front-trimmed sequence is empty or starts with non-whitespace.
proof fn lemma_trim_front_head(s: Seq<char>)
    ensures
        trim_front(s).len() > 0 ==> !is_ws(trim_front(s)[0]),
    decreases s.len(),
{
    if s.len() > 0 && is_ws(s[0]) {
        lemma_trim_front_head(s.skip(1));
    }
}

/// The back-trimmed sequence is a prefix that is empty or ends with
/// non-whitespace.
proof fn lemma_trim_back_shape(s: Seq<char>)
    ensures
        trim_back(s).len() <= s.len(),
        trim_back(s) == s.take(trim_back(s).len() as int),
        trim_back(s).len() > 0 ==> !is_ws(trim_back(s)[trim_back(s).len() - 1]),
    decreases s.len(),
{
    if s.len() > 0 && is_ws(s[s.len() - 1]) {
        lemma_trim_back_shape(s.take(s.len() as int - 1));
        assert(s.take(s.len() as int - 1).take(trim_back(s).len() as int) =~= s.take(
            trim_back(s).len() as int,
        ));
    } else {
        assert(s.take(s.len() as int) =~= s);
    }
}

/// Trimming an already-trimmed sequence changes nothing.
pub proof fn lemma_trim_idempotent(s: Seq<char>)
    ensures
        trim_chars(trim_chars(s)) == trim_chars(s),
{
    let t = trim_chars(s);
    lemma_trim_front_head(s);
    lemma_trim_back_shape(trim_front(s));
    if t.len() > 0 {
        // The head survived the back trim, so it is still non-whitespace.
        assert(t[0] == trim_front(s)[0]);
        assert(trim_front(t) == t);
        assert(trim_back(t) == t);
    } else {
        assert(trim_front(t) == t);
        assert(trim_back(t) == t);
    }
}

/// A copy of the string with whitespace removed from both ends.
pub fn trim_string(s: &str) -> (r: String)
    ensures
        r@ == trim_chars(s@),
{
    let len = s.unicode_len();
    let mut start: usize = 0;
    while start < len && is_ws_exec(s.get_char(start))
        invariant
            len == s@.len(),
            start <= len,
            forall|j: int| 0 <= j < start ==> is_ws(s@[j]),
        decreases len - start,
    {
        start = start + 1;
    }
    let mut end: usize = len;
    while end > start && is_ws_exec(s.get_char(end - 1))
        invariant
            len == s@.len(),
            start <= end <= len,
            forall|j: int| end <= j < len ==> is_ws(s@[j]),
            forall|j: int| 0 <= j < start ==> is_ws(s@[j]),
            start < len ==> !is_ws(s@[start as int]),
        decreases end,
    {
        end = end - 1;
    }
    let r = s.substring_char(start, end).to_owned();
    proof {
        lemma_trim_front_skip(s@, start as int);
        let t = s@.skip(start as int);
        if start < len && !is_ws(s@[start as int]) {
            assert(t[0] == s@[start as int]);
            assert(trim_front(t) == t);
        } else {
            assert(start == len || start == end);
            assert(t.len() == len - start);
            if start == len {
                assert(t =~= Seq::<char>::empty());
            }
        }
        if start == end {
            // Everything from `start` on is whitespace (or nothing).
            assert forall|j: int| 0 <= j < t.len() implies is_ws(t[j]) by {
                assert(t[j] == s@[start + j]);
            }
            lemma_trim_back_take(trim_front(t), 0);
            if trim_front(t).len() > 0 {
                lemma_trim_front_all_ws(t);
            }
            assert(trim_back(trim_front(t)).len() == 0) by {
                lemma_trim_front_all_ws(t);
                assert(trim_front(t) =~= Seq::<char>::empty());
                assert(trim_back(Seq::<char>::empty()) =~= Seq::<char>::empty());
            }
            assert(r@ =~= s@.subrange(start as int, end as int));
            assert(r@.len() == 0);
            assert(r@ =~= trim_chars(s@));
        } else {
            assert(trim_front(t) == t);
            assert forall|j: int| end - start <= j < t.len() implies is_ws(t[j]) by {
                assert(t[j] == s@[start + j]);
            }
            lemma_trim_back_take(t, end - start);
            assert(!is_ws(t[end - start - 1])) by {
                assert(t[end - start - 1] == s@[end - 1]);
            }
            assert(trim_back(t.take(end - start)) == t.take(end - start)) by {
                assert(t.take(end - start)[end - start - 1] == t[end - start - 1]);
            }
            assert(r@ =~= t.take(end - start));
            assert(r@ =~= trim_chars(s@));
        }
    }
    r
}

proof fn lemma_trim_front_all_ws(s: Seq<char>)
    requires
        forall|j: int| 0 <= j < s.len() ==> is_ws(s[j]),
    ensures
        trim_front(s).len() == 0,
    decreases s.len(),
{
    if s.len() > 0 {
        assert forall|j: int| 0 <= j < s.skip(1).len() implies is_ws(s.skip(1)[j]) by {
            assert(s.skip(1)[j] == s[j + 1]);
        }
        lemma_trim_front_all_ws(s.skip(1));
    }
}

impl Popup {
    /// Confirm the popup, yielding `(value, value, feed url, identity)`:
    /// the group name for the single-field popups; the trimmed title, URL
    /// and optional feed URL for the feed popups.  The identity slot
    /// carries the edited feed's original URL; the renamed group's original
    /// path is read from the popup itself (`original_path`) before the
    /// confirmation consumes it.
    pub fn confirm(self) -> (r: (String, String, Option<String>, Option<String>))
        ensures
            ({
                let o = self@;
                match o {
                    PopupV::CreateGroup { input } => r.0@ == input && r.1@
                        == Seq::<char>::empty() && r.2 is None && r.3 is None,
                    PopupV::EditGroup { original_path, input } => r.0@ == input && r.1@
                        == Seq::<char>::empty() && r.2 is None && r.3 is None,
                    PopupV::CreateFeed { title, url, feed_url, .. } => r.0@ == trim_chars(title)
                        && r.1@ == trim_chars(url) && (if trim_chars(feed_url).len() == 0 {
                        r.2 is None
                    } else {
                        r.2 matches Some(u) && u@ == trim_chars(feed_url)
                    }) && r.3 is None,
                    PopupV::EditFeed { original_url, title, url, feed_url, .. } => r.0@
                        == trim_chars(title) && r.1@ == trim_chars(url) && (
                    if trim_chars(feed_url).len() == 0 {
                        r.2 is None
                    } else {
                        r.2 matches Some(u) && u@ == trim_chars(feed_url)
                    }) && (r.3 matches Some(u) && u@ == original_url),
                }
            }),
    {
        match self {
            Popup::CreateGroup { input } => (input, String::new(), None, None),
            Popup::EditGroup { original_path: _, input } => (input, String::new(), None, None),
            Popup::CreateFeed { title, url, feed_url, .. } => {
                let f = trim_string(feed_url.as_str());
                let feed = if f.as_str().unicode_len() == 0 {
                    None
                } else {
                    Some(f)
                };
                (trim_string(title.as_str()), trim_string(url.as_str()), feed, None)
            },
            Popup::EditFeed { original_url, title, url, feed_url, .. } => {
                let f = trim_string(feed_url.as_str());
                let feed = if f.as_str().unicode_len() == 0 {
                    None
                } else {
                    Some(f)
                };
                (
                    trim_string(title.as_str()),
                    trim_string(url.as_str()),
                    feed,
                    Some(original_url),
                )
            },
        }
    }
}

/// Remove the last character of a string, if any.
fn pop_string(s: &mut String)
    ensures
        old(s)@.len() == 0 ==> final(s)@ == old(s)@,
        old(s)@.len() > 0 ==> final(s)@ == old(s)@.take(old(s)@.len() as int - 1),
{
    let n = s.as_str().unicode_len();
    if n > 0 {
        let t = s.as_str().substring_char(0, n - 1).to_owned();
        proof {
            assert(t@ =~= s@.take(s@.len() as int - 1));
        }
        *s = t;
    }
}


} // verus!
