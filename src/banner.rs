use vstd::prelude::*;

verus! {

/// This library's version, as shown in its banners.
pub open spec fn version_text() -> Seq<char> {
    "0.1.0"@
}

/// The banner text around a tool's name and version.
pub open spec fn logo_spec(name: Seq<char>) -> Seq<char> {
    r#"

    \    |  |                         |  |
   _ \   |  |   -_)   _` |   -_)   _` |  |  |  |    ("#@ + name + r#")
 _/  _\ _| _| \___| \__, | \___| \__,_| _| \_, |    (v"#@ + version_text() + r#")
                     ____|                  __/
"#@
}

/// A text banner naming the tool `name` and this library's version.
pub fn logo(name: &str) -> (r: String)
    ensures
        r@ == logo_spec(name@),
{
    let mut s = String::from_str(r#"

    \    |  |                         |  |
   _ \   |  |   -_)   _` |   -_)   _` |  |  |  |    ("#);
    s.append(name);
    s.append(r#")
 _/  _\ _| _| \___| \__, | \___| \__,_| _| \_, |    (v"#);
    s.append("0.1.0");
    s.append(r#")
                     ____|                  __/
"#);
    s
}

/// The body of a reply for a server that could not be reached.
pub fn failed_to_reach_named(name: &str) -> (r: String)
    ensures
        r@ == logo_spec("mirror 502 :( "@) + "\n\nFailed to reach the "@ + name@
            + " server. Sorry.\n"@,
{
    let mut s = logo("mirror 502 :( ");
    s.append("\n\nFailed to reach the ");
    s.append(name);
    s.append(" server. Sorry.\n");
    s
}

/// The body of a reply to a client that is being rate limited.
pub fn booo() -> (r: String)
    ensures
        r@ == logo_spec("mirror 429"@)
            + "\n\nYou're going a bit too fast.\n\nTip: check out the `x-ratelimit-after` response header.\n"@,
{
    let mut s = logo("mirror 429");
    s.append(
        "\n\nYou're going a bit too fast.\n\nTip: check out the `x-ratelimit-after` response header.\n",
    );
    s
}

} // verus!
