//! The usage text shown on a help request or a parse error.
use vstd::prelude::*;

verus! {

/// The description of the options, after the program's name.
pub open spec fn options_help() -> Seq<char> {
    "\n\nOptions:\n\t-l <length>   length of the generated passwords (default: 10)\n\t-c <length>   number of passwords to generate (default: 1)\n\t-t [nul]      type of the passwords, any of:\n\t              l - lowercase\n\t              u - uppercase\n\t              n - number\n\t              (default: lun - all options)\n"@
}

/// The line that reports an error, or nothing for a help request.
pub open spec fn error_line(err: Option<Seq<char>>) -> Seq<char> {
    match err {
        Some(e) => "ERROR: "@ + e + "\n"@,
        None => Seq::empty(),
    }
}

/// The whole usage text: the error line if any, then how to invoke `program`
/// and what each option does.
pub open spec fn usage_text(program: Seq<char>, err: Option<Seq<char>>) -> Seq<char> {
    error_line(err) + "\nUsage:\n\t"@ + program + options_help()
}

/// The characters of an optional message.
pub open spec fn message_view(err: Option<String>) -> Option<Seq<char>> {
    match err {
        Some(e) => Some(e@),
        None => None,
    }
}

/// Builds the usage text for the program named `program`, led by
/// `ERROR: <message>` where a parse error gave a message.
pub fn usage_message(program: &str, err: Option<String>) -> (r: String)
    ensures
        r@ == usage_text(program@, message_view(err)),
{
    let mut text = String::new();
    match err {
        Some(e) => {
            text.append("ERROR: ");
            text.append(e.as_str());
            text.append("\n");
        },
        None => {},
    }
    text.append("\nUsage:\n\t");
    text.append(program);
    text.append(
        "\n\nOptions:\n\t-l <length>   length of the generated passwords (default: 10)\n\t-c <length>   number of passwords to generate (default: 1)\n\t-t [nul]      type of the passwords, any of:\n\t              l - lowercase\n\t              u - uppercase\n\t              n - number\n\t              (default: lun - all options)\n",
    );
    assert(text@ =~= usage_text(program@, message_view(err)));
    text
}

} // verus!
