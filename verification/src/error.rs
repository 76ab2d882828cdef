//! What can go wrong: while the drivers are set up, and while they work.
use vstd::prelude::*;
use vstd::string::StringExecFns;

verus! {

/// The kind of file operation that failed.
#[derive(Clone, Copy, Debug, PartialEq, Eq, Structural)]
pub enum IoKind {
    /// Opening the log file.
    Open,
    /// Reading what is to be logged.
    Read,
    /// Writing to the log file.
    Write,
    /// Making the log file's contents durable.
    Sync,
    /// Pushing buffered bytes to the log file.
    Flush,
}

impl IoKind {
    /// The verb that names the operation in a message.
    pub open spec fn verb(self) -> Seq<char> {
        match self {
            IoKind::Open => "open"@,
            IoKind::Read => "read"@,
            IoKind::Write => "write"@,
            IoKind::Sync => "sync"@,
            IoKind::Flush => "flush"@,
        }
    }

    /// The verb that names the operation in a message.
    pub fn word(self) -> (word: &'static str)
        ensures
            word@ == self.verb(),
    {
        match self {
            IoKind::Open => "open",
            IoKind::Read => "read",
            IoKind::Write => "write",
            IoKind::Sync => "sync",
            IoKind::Flush => "flush",
        }
    }
}

/// Why a driver could not do what it was asked.
#[derive(Clone, Debug, PartialEq, Eq)]
pub enum LogError {
    /// The driver holds no open file: it was never initialized with success.
    Uninitialized,
    /// A file operation failed.
    Io {
        /// The path of the driver's log file.
        path: String,
        /// The operation that failed.
        kind: IoKind,
        /// What the operating system said.
        cause: String,
    },
}

/// A [`LogError`] with its texts as sequences of characters.
pub enum LogErrorView {
    /// See [`LogError::Uninitialized`].
    Uninitialized,
    /// See [`LogError::Io`].
    Io { path: Seq<char>, kind: IoKind, cause: Seq<char> },
}

impl View for LogError {
    type V = LogErrorView;

    open spec fn view(&self) -> LogErrorView {
        match self {
            LogError::Uninitialized => LogErrorView::Uninitialized,
            LogError::Io { path, kind, cause } => LogErrorView::Io {
                path: path@,
                kind: *kind,
                cause: cause@,
            },
        }
    }
}

impl LogErrorView {
    /// The error in words. A failed operation is named with its verb, the
    /// path between single quotes, and the cause behind a colon.
    pub open spec fn message(self) -> Seq<char> {
        match self {
            LogErrorView::Uninitialized => "logger not initialized"@,
            LogErrorView::Io { path, kind, cause } => kind.verb() + " log file path '"@ + path
                + "': "@ + cause,
        }
    }
}

impl LogError {
    /// The error in words.
    pub fn message(&self) -> (text: String)
        ensures
            text@ == self@.message(),
    {
        match self {
            LogError::Uninitialized => String::from_str("logger not initialized"),
            LogError::Io { path, kind, cause } => {
                let mut text = String::from_str(kind.word());
                text.append(" log file path '");
                text.append(path.as_str());
                text.append("': ");
                text.append(cause.as_str());
                text
            },
        }
    }
}

/// Why a set of drivers could not be made from its configuration.
#[derive(Clone, Copy, Debug, PartialEq, Eq, Structural)]
pub enum ConfigError {
    /// The driver type is not one of the known ones. Holds the number that
    /// stood for the type in the configuration.
    UnknownType(u16),
    /// The path of the log file is empty, or is no text.
    MalformedPath,
}

/// The character of one decimal digit.
pub open spec fn digit(d: nat) -> char {
    if d == 0 {
        '0'
    } else if d == 1 {
        '1'
    } else if d == 2 {
        '2'
    } else if d == 3 {
        '3'
    } else if d == 4 {
        '4'
    } else if d == 5 {
        '5'
    } else if d == 6 {
        '6'
    } else if d == 7 {
        '7'
    } else if d == 8 {
        '8'
    } else {
        '9'
    }
}

/// A number in decimal digits, without leading zeros.
pub open spec fn decimal(n: nat) -> Seq<char>
    decreases n,
{
    if n < 10 {
        seq![digit(n)]
    } else {
        decimal(n / 10).push(digit(n % 10))
    }
}

fn digit_word(d: u16) -> (word: &'static str)
    requires
        d < 10,
    ensures
        word@ == seq![digit(d as nat)],
{
    proof {
        reveal_strlit("0");
        reveal_strlit("1");
        reveal_strlit("2");
        reveal_strlit("3");
        reveal_strlit("4");
        reveal_strlit("5");
        reveal_strlit("6");
        reveal_strlit("7");
        reveal_strlit("8");
        reveal_strlit("9");
    }
    let word = if d == 0 {
        "0"
    } else if d == 1 {
        "1"
    } else if d == 2 {
        "2"
    } else if d == 3 {
        "3"
    } else if d == 4 {
        "4"
    } else if d == 5 {
        "5"
    } else if d == 6 {
        "6"
    } else if d == 7 {
        "7"
    } else if d == 8 {
        "8"
    } else {
        "9"
    };
    assert(word@ =~= seq![digit(d as nat)]);
    word
}

fn append_decimal(text: &mut String, n: u16)
    ensures
        final(text)@ == old(text)@ + decimal(n as nat),
    decreases n,
{
    if n >= 10 {
        append_decimal(text, n / 10);
    }
    text.append(digit_word(n % 10));
    assert(text@ =~= old(text)@ + decimal(n as nat));
}

impl ConfigError {
    /// The error in words. An unknown type is named by its number.
    pub open spec fn message_text(self) -> Seq<char> {
        match self {
            ConfigError::UnknownType(n) => "unknown log driver type "@ + decimal(n as nat),
            ConfigError::MalformedPath => "malformed log driver path"@,
        }
    }

    /// The error in words.
    pub fn message(&self) -> (text: String)
        ensures
            text@ == self.message_text(),
    {
        match self {
            ConfigError::UnknownType(n) => {
                let mut text = String::from_str("unknown log driver type ");
                append_decimal(&mut text, *n);
                text
            },
            ConfigError::MalformedPath => String::from_str("malformed log driver path"),
        }
    }
}

} // verus!
