//! The names of the items that belong to one hook: the hooked function, the
//! variable that holds its address, the backup of its bytes, and the three
//! functions that install the hook, remove it, and intercept the call.

use vstd::prelude::*;
use vstd::string::*;

verus! {

/// `text` in lower case, as `str::to_lowercase` gives it.
pub uninterp spec fn lowercase_of(text: Seq<char>) -> Seq<char>;

/// `text` in upper case, as `str::to_uppercase` gives it.
pub uninterp spec fn uppercase_of(text: Seq<char>) -> Seq<char>;

/// `str::to_lowercase` of the standard library.
///
/// Trusted: nothing but that the result depends on the text alone, which
/// gives it its name, `lowercase_of`.
#[verifier::external_body]
fn lowercase(text: &str) -> (out: String)
    ensures
        out@ == lowercase_of(text@),
{
    text.to_lowercase()
}

/// `str::to_uppercase` of the standard library.
///
/// Trusted: nothing but that the result depends on the text alone, which
/// gives it its name, `uppercase_of`.
#[verifier::external_body]
fn uppercase(text: &str) -> (out: String)
    ensures
        out@ == uppercase_of(text@),
{
    text.to_uppercase()
}

/// The names that belong to the hook on `Class::function`.
pub struct Names {
    /// The hooked function, as `Class::function`.
    pub original_function_name: String,
    /// The variable that holds the address of the hooked function.
    pub original_function_address: String,
    /// The backup of the bytes that the hook overwrites.
    pub original_bytes_backup_name: String,
    /// The function that installs the hook.
    pub hook_function_name: String,
    /// The function that removes the hook.
    pub unhook_function_name: String,
    /// The interceptor that the hook jumps to.
    pub interceptor_name: String,
}

/// What [`Names`] holds, as contracts speak of it.
pub struct NamesView {
    pub original_function_name: Seq<char>,
    pub original_function_address: Seq<char>,
    pub original_bytes_backup_name: Seq<char>,
    pub hook_function_name: Seq<char>,
    pub unhook_function_name: Seq<char>,
    pub interceptor_name: Seq<char>,
}

impl View for Names {
    type V = NamesView;

    open spec fn view(&self) -> NamesView {
        NamesView {
            original_function_name: self.original_function_name@,
            original_function_address: self.original_function_address@,
            original_bytes_backup_name: self.original_bytes_backup_name@,
            hook_function_name: self.hook_function_name@,
            unhook_function_name: self.unhook_function_name@,
            interceptor_name: self.interceptor_name@,
        }
    }
}

/// The names for `class` and `function`, given both in lower and in upper
/// case.
pub open spec fn assembled(
    class: Seq<char>,
    function: Seq<char>,
    class_lower: Seq<char>,
    function_lower: Seq<char>,
    class_upper: Seq<char>,
    function_upper: Seq<char>,
) -> NamesView {
    NamesView {
        original_function_name: class + "::"@ + function,
        original_function_address: class_upper + "_"@ + function_upper,
        original_bytes_backup_name: "ORIGINAL_"@ + class_upper + "_"@ + function_upper + "_BYTES"@,
        hook_function_name: "hook_"@ + class_lower + "_"@ + function_lower,
        unhook_function_name: "unhook_"@ + class_lower + "_"@ + function_lower,
        interceptor_name: "intercept_"@ + class_lower + "_"@ + function_lower,
    }
}

/// `prefix`, `first`, `separator`, `second` and `suffix` in a row.
fn joined(prefix: &str, first: &str, separator: &str, second: &str, suffix: &str) -> (out: String)
    ensures
        out@ == prefix@ + first@ + separator@ + second@ + suffix@,
{
    let mut out = String::from_str(prefix);
    out.append(first);
    out.append(separator);
    out.append(second);
    out.append(suffix);
    out
}

impl Names {
    /// The names for `class` and `function`, given both in lower and in
    /// upper case.
    pub fn assemble(
        class: &str,
        function: &str,
        class_lower: &str,
        function_lower: &str,
        class_upper: &str,
        function_upper: &str,
    ) -> (names: Names)
        ensures
            names@ == assembled(
                class@,
                function@,
                class_lower@,
                function_lower@,
                class_upper@,
                function_upper@,
            ),
    {
        let names = Names {
            original_function_name: joined("", class, "::", function, ""),
            original_function_address: joined("", class_upper, "_", function_upper, ""),
            original_bytes_backup_name: joined(
                "ORIGINAL_",
                class_upper,
                "_",
                function_upper,
                "_BYTES",
            ),
            hook_function_name: joined("hook_", class_lower, "_", function_lower, ""),
            unhook_function_name: joined("unhook_", class_lower, "_", function_lower, ""),
            interceptor_name: joined("intercept_", class_lower, "_", function_lower, ""),
        };
        proof {
            reveal_strlit("");
            let expected = assembled(
                class@,
                function@,
                class_lower@,
                function_lower@,
                class_upper@,
                function_upper@,
            );
            assert(names@.original_function_name =~= expected.original_function_name);
            assert(names@.original_function_address =~= expected.original_function_address);
            assert(names@.original_bytes_backup_name =~= expected.original_bytes_backup_name);
            assert(names@.hook_function_name =~= expected.hook_function_name);
            assert(names@.unhook_function_name =~= expected.unhook_function_name);
            assert(names@.interceptor_name =~= expected.interceptor_name);
        }
        names
    }

    /// The names that belong to the hook on `class::function`.
    pub fn derive(class: &str, function: &str) -> (names: Names)
        ensures
            names@ == assembled(
                class@,
                function@,
                lowercase_of(class@),
                lowercase_of(function@),
                uppercase_of(class@),
                uppercase_of(function@),
            ),
    {
        let class_lower = lowercase(class);
        let function_lower = lowercase(function);
        let class_upper = uppercase(class);
        let function_upper = uppercase(function);
        Names::assemble(
            class,
            function,
            class_lower.as_str(),
            function_lower.as_str(),
            class_upper.as_str(),
            function_upper.as_str(),
        )
    }
}

} // verus!
