//! The errors that the engine reports to its callers.

use vstd::prelude::*;
use vstd::string::StringExecFns;

verus! {

/// Why an engine operation was refused.
#[derive(Debug)]
pub enum EngineError {
    /// The argument at position `index`, called `name`, was not acceptable.
    ArgumentError { index: u8, name: String },
    /// The model file `filename` could not be loaded.
    ModelLoadError { filename: String },
    /// The component store has given out every index it has.
    MaxComponentsError { insertion_loc: String },
    /// The collision manager has given out every collider index it has.
    MaxCollidersError { insertion_loc: String },
    /// Anything else, described in words.
    Custom(String),
}

/// The character that stands for a decimal digit.
pub open spec fn digit_char(d: nat) -> char {
    if d == 0 {
        '0'
    } else if d == 1 {
        '1'
    } else if d == 2 {
        '2'
    } else if d == 3 {
        '3'
    } else if d == 4 {
        '4'
    } else if d == 5 {
        '5'
    } else if d == 6 {
        '6'
    } else if d == 7 {
        '7'
    } else if d == 8 {
        '8'
    } else {
        '9'
    }
}

/// A number written in decimal, without leading zeros.
pub open spec fn decimal(n: nat) -> Seq<char>
    decreases n,
{
    if n < 10 {
        seq![digit_char(n)]
    } else {
        decimal(n / 10).push(digit_char(n % 10))
    }
}

/// The text that describes an error in full.
pub open spec fn error_text(e: EngineError) -> Seq<char> {
    match e {
        EngineError::ArgumentError { index, name } => "Invalid argument at index "@ + decimal(
            index as nat,
        ) + ": "@ + name@,
        EngineError::ModelLoadError { filename } => "Failed to load file at path "@ + filename@,
        EngineError::MaxComponentsError { insertion_loc } =>
            "Maximum number of components added to scene. Insertion at function "@
            + insertion_loc@ + " invalid"@,
        EngineError::MaxCollidersError { insertion_loc } =>
            "Maximum number of colliders added to scene. Insertion at function "@
            + insertion_loc@ + " invalid"@,
        EngineError::Custom(err) => "Error: "@ + err@,
    }
}

/// One decimal digit as text.
fn digit_str(d: u8) -> (s: &'static str)
    requires
        d < 10,
    ensures
        s@ == seq![digit_char(d as nat)],
{
    proof {
        reveal_strlit("0");
        reveal_strlit("1");
        reveal_strlit("2");
        reveal_strlit("3");
        reveal_strlit("4");
        reveal_strlit("5");
        reveal_strlit("6");
        reveal_strlit("7");
        reveal_strlit("8");
        reveal_strlit("9");
    }
    let s = if d == 0 {
        "0"
    } else if d == 1 {
        "1"
    } else if d == 2 {
        "2"
    } else if d == 3 {
        "3"
    } else if d == 4 {
        "4"
    } else if d == 5 {
        "5"
    } else if d == 6 {
        "6"
    } else if d == 7 {
        "7"
    } else if d == 8 {
        "8"
    } else {
        "9"
    };
    proof {
        assert(s@ =~= seq![digit_char(d as nat)]);
    }
    s
}

/// Appends a small number, written in decimal, to a text.
pub fn push_decimal(text: &mut String, n: u8)
    ensures
        final(text)@ == old(text)@ + decimal(n as nat),
{
    let ghost start = text@;
    if n >= 100 {
        text.append(digit_str(n / 100));
        text.append(digit_str((n / 10) % 10));
        text.append(digit_str(n % 10));
        proof {
            let h = (n / 100) as nat;
            let t = ((n / 10) % 10) as nat;
            let u = (n % 10) as nat;
            assert(decimal((n / 100) as nat) == seq![digit_char(h)]);
            assert((n as nat / 10) / 10 == h);
            assert((n as nat / 10) % 10 == t);
            assert(decimal(n as nat / 10) == decimal(h).push(digit_char(t)));
            assert(decimal(n as nat) == decimal(n as nat / 10).push(digit_char(u)));
            assert(text@ =~= start + decimal(n as nat));
        }
    } else if n >= 10 {
        text.append(digit_str(n / 10));
        text.append(digit_str(n % 10));
        proof {
            let t = (n / 10) as nat;
            let u = (n % 10) as nat;
            assert(decimal(t) == seq![digit_char(t)]);
            assert(decimal(n as nat) == decimal(t).push(digit_char(u)));
            assert(text@ =~= start + decimal(n as nat));
        }
    } else {
        text.append(digit_str(n));
        proof {
            assert(text@ =~= start + decimal(n as nat));
        }
    }
}

impl EngineError {
    /// A few fixed words for the kind of error.
    pub fn description(&self) -> (s: &'static str)
        ensures
            s@ == match *self {
                EngineError::ArgumentError { .. } => "Invalid argument provided"@,
                EngineError::ModelLoadError { .. } => "Failed to load model for given filepath"@,
                EngineError::MaxComponentsError { .. } => "Component store full"@,
                EngineError::MaxCollidersError { .. } => "Collision manager full"@,
                EngineError::Custom(_) => "Unknown error type"@,
            },
    {
        match self {
            EngineError::ArgumentError { .. } => "Invalid argument provided",
            EngineError::ModelLoadError { .. } => "Failed to load model for given filepath",
            EngineError::MaxComponentsError { .. } => "Component store full",
            EngineError::MaxCollidersError { .. } => "Collision manager full",
            EngineError::Custom(_) => "Unknown error type",
        }
    }

    /// The error described in full, as it is shown to a reader.
    pub fn to_string(&self) -> (text: String)
        ensures
            text@ == error_text(*self),
    {
        match self {
            EngineError::ArgumentError { index, name } => {
                let mut text = String::from_str("Invalid argument at index ");
                push_decimal(&mut text, *index);
                text.append(": ");
                text.append(name.as_str());
                text
            },
            EngineError::ModelLoadError { filename } => {
                let mut text = String::from_str("Failed to load file at path ");
                text.append(filename.as_str());
                text
            },
            EngineError::MaxComponentsError { insertion_loc } => {
                let mut text = String::from_str(
                    "Maximum number of components added to scene. Insertion at function ",
                );
                text.append(insertion_loc.as_str());
                text.append(" invalid");
                text
            },
            EngineError::MaxCollidersError { insertion_loc } => {
                let mut text = String::from_str(
                    "Maximum number of colliders added to scene. Insertion at function ",
                );
                text.append(insertion_loc.as_str());
                text.append(" invalid");
                text
            },
            EngineError::Custom(err) => {
                let mut text = String::from_str("Error: ");
                text.append(err.as_str());
                text
            },
        }
    }
}

} // verus!
