use vstd::prelude::*;

verus! {

/// The migrations that the wrapped reference server's database must hold,
/// in order of name.
pub open spec fn expected_migrations() -> Seq<Seq<char>> {
    seq![
        "_20221020T204908820Z"@,
        "_20230223T215019669Z"@,
        "_20230406T174552885Z"@,
        "_20231128T203323431Z"@,
    ]
}

/// The values of a sequence of strings.
pub open spec fn strings_view(v: Seq<String>) -> Seq<Seq<char>> {
    v.map_values(|s: String| s@)
}

/// Whether the migration names read from the database, sorted by name, are
/// exactly the expected ones. Any other list means the schema is not the
/// one this loader writes to.
pub fn migrations_match(names: &Vec<String>) -> (r: bool)
    ensures
        r == (strings_view(names@) == expected_migrations()),
{
    let expected: Vec<String> = vec![
        String::from_str("_20221020T204908820Z"),
        String::from_str("_20230223T215019669Z"),
        String::from_str("_20230406T174552885Z"),
        String::from_str("_20231128T203323431Z"),
    ];
    proof {
        assert(strings_view(expected@) =~= expected_migrations());
    }
    if names.len() != expected.len() {
        return false;
    }
    let mut i: usize = 0;
    while i < names.len()
        invariant
            i <= names@.len() == expected@.len(),
            strings_view(expected@) == expected_migrations(),
            forall|k: int| 0 <= k < i ==> names@[k]@ == expected@[k]@,
        decreases names@.len() - i,
    {
        if names[i] != expected[i] {
            assert(strings_view(names@)[i as int] != expected_migrations()[i as int]);
            return false;
        }
        i += 1;
    }
    proof {
        assert(strings_view(names@) =~= strings_view(expected@));
    }
    true
}

} // verus!
