//! The status row of the terminal interface.
//!
//! The hook writes the counts of the last linted reply to a state file. The
//! row shows them: red when there are hard violations, yellow when there
//! are only soft ones, green when the reply is clean.

use vstd::prelude::*;
use vstd::string::StringExecFns;

use crate::foreign;
use crate::lines;
use crate::reply;
use crate::text;

verus! {

/// The colour of the row.
#[derive(Debug, Clone, Copy, PartialEq, Eq, Structural)]
pub enum RowColor {
    Red,
    Yellow,
    Green,
}

impl RowColor {
    /// The name of a colour.
    pub open spec fn name(self) -> Seq<char> {
        match self {
            RowColor::Red => "red"@,
            RowColor::Yellow => "yellow"@,
            RowColor::Green => "green"@,
        }
    }

    /// The name of a colour.
    pub fn as_str(&self) -> (r: &'static str)
        ensures
            r@ == self.name(),
    {
        match self {
            RowColor::Red => "red",
            RowColor::Yellow => "yellow",
            RowColor::Green => "green",
        }
    }
}

/// The content of the row.
#[derive(Debug)]
pub struct Row {
    pub text: String,
    pub color: RowColor,
    pub bold: bool,
}

/// The text of the row.
pub open spec fn row_text(hard: nat, soft: nat) -> Seq<char> {
    " Writing-rule reply: "@ + text::decimal(hard) + " hard, "@ + text::decimal(soft) + " soft "@
}

/// The colour of the row.
pub open spec fn row_color(hard: nat, soft: nat) -> RowColor {
    if hard > 0 {
        RowColor::Red
    } else if soft > 0 {
        RowColor::Yellow
    } else {
        RowColor::Green
    }
}

/// The row for the counts of the last linted reply. It is bold unless the
/// reply is clean.
pub fn render_state(hard: usize, soft: usize) -> (r: Row)
    ensures
        r.text@ == row_text(hard as nat, soft as nat),
        r.color == row_color(hard as nat, soft as nat),
        r.bold == (hard > 0 || soft > 0),
{
    let mut t = " Writing-rule reply: ".to_owned();
    t.append(text::decimal_of(hard).as_str());
    t.append(" hard, ");
    t.append(text::decimal_of(soft).as_str());
    t.append(" soft ");
    let color = if hard > 0 {
        RowColor::Red
    } else if soft > 0 {
        RowColor::Yellow
    } else {
        RowColor::Green
    };
    Row { text: t, color, bold: hard > 0 || soft > 0 }
}

/// A text that is given and not empty.
pub open spec fn given(s: Option<&str>) -> bool {
    s matches Some(t) && t@.len() > 0
}

/// The path components that lead to the state file. A session directory
/// from the host wins. Without one the session name stands below the
/// sessions root, or by itself when there is no root. Without a session
/// there is no state file.
pub open spec fn state_parts(
    session: Option<&str>,
    session_dir: Option<&str>,
    sessions_root: Option<&str>,
) -> Option<Seq<Seq<char>>> {
    if given(session_dir) {
        Some(seq![session_dir->0@, reply::STATE_FILE@])
    } else if given(session) {
        match sessions_root {
            Some(root) => Some(seq![root@, session->0@, reply::STATE_FILE@]),
            None => Some(seq![session->0@, reply::STATE_FILE@]),
        }
    } else {
        None
    }
}

fn nonempty(s: Option<&str>) -> (r: Option<&str>)
    ensures
        given(s) ==> r == s,
        !given(s) ==> r is None,
{
    match s {
        Some(t) => if t.is_empty() {
            None
        } else {
            Some(t)
        },
        None => None,
    }
}

/// The path components that lead to the state file.
pub fn state_location(
    session: Option<&str>,
    session_dir: Option<&str>,
    sessions_root: Option<&str>,
) -> (r: Option<Vec<String>>)
    ensures
        match r {
            Some(v) => state_parts(session, session_dir, sessions_root) == Some(lines::texts(v@)),
            None => state_parts(session, session_dir, sessions_root) is None,
        },
{
    let mut v: Vec<String> = Vec::new();
    match nonempty(session_dir) {
        Some(dir) => {
            v.push(dir.to_owned());
        },
        None => match nonempty(session) {
            Some(name) => {
                if let Some(root) = sessions_root {
                    v.push(root.to_owned());
                }
                v.push(name.to_owned());
            },
            None => {
                return None;
            },
        },
    }
    v.push(reply::STATE_FILE.to_owned());
    assert(lines::texts(v@) =~= state_parts(session, session_dir, sessions_root)->0);
    Some(v)
}

/// The sessions root that a setting gives. A configuration without the
/// setting has the default root.
pub open spec fn root_of(setting: Option<Option<Seq<char>>>) -> Option<Seq<char>> {
    match setting {
        Some(Some(root)) => Some(root),
        Some(None) => Some("sessions"@),
        None => None,
    }
}

/// The sessions root that a setting gives.
pub fn choose_root(setting: Option<Option<String>>) -> (r: Option<String>)
    ensures
        reply::text_of(r) == root_of(foreign::field_of(setting)),
{
    match setting {
        Some(Some(root)) => Some(root),
        Some(None) => Some("sessions".to_owned()),
        None => None,
    }
}

/// Read `[paths] sessions_root` from a configuration text. `None` when the
/// text is malformed.
pub fn sessions_root(config: &str) -> (r: Option<String>)
    ensures
        reply::text_of(r) == root_of(
            foreign::toml_field_of(config@, "paths"@, "sessions_root"@),
        ),
{
    choose_root(foreign::toml_field(config, "paths", "sessions_root"))
}

/// A host-supplied session directory is self-contained: neither the session
/// name nor the sessions root matters.
pub proof fn law_session_dir_wins(
    session: Option<&str>,
    session_dir: Option<&str>,
    sessions_root: Option<&str>,
)
    requires
        given(session_dir),
    ensures
        state_parts(session, session_dir, sessions_root) == state_parts(None, session_dir, None),
{
}

} // verus!
