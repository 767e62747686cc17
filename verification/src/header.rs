//! The line that the reflector introduces itself with.

use vstd::prelude::*;
use vstd::string::StringExecFns;

verus! {

/// What is said of the processor where the build names none.
pub open spec fn cpu_text(target_cpu: Option<Seq<char>>) -> Seq<char> {
    match target_cpu {
        Some(cpu) => cpu,
        None => "base cpu variant"@,
    }
}

/// The line for a program of this name and version, built for this target.
pub open spec fn header_text(
    name: Seq<char>,
    version: Seq<char>,
    target: Seq<char>,
    target_cpu: Option<Seq<char>>,
) -> Seq<char> {
    name + " v"@ + version + " - built for "@ + target + " ("@ + cpu_text(target_cpu) + ")"@
}

/// The line for a program of this name and version, built for this target and, if
/// one is named, this processor.
pub fn header_line(name: &str, version: &str, target: &str, target_cpu: Option<&str>) -> (line:
    String)
    ensures
        line@ == header_text(
            name@,
            version@,
            target@,
            match target_cpu {
                Some(cpu) => Some(cpu@),
                None => None,
            },
        ),
{
    let cpu: &str = match target_cpu {
        Some(cpu) => cpu,
        None => "base cpu variant",
    };
    let mut line: String = name.to_owned();
    line.append(" v");
    line.append(version);
    line.append(" - built for ");
    line.append(target);
    line.append(" (");
    line.append(cpu);
    line.append(")");
    line
}

/// The line holds the name, then the version, the target and the processor, each after
/// what announces it, and nothing else.
pub proof fn law_header_holds_its_parts(
    name: &str,
    version: &str,
    target: &str,
    cpu: &str,
    line: String,
)
    requires
        call_ensures(header_line, (name, version, target, Some(cpu)), line),
    ensures
        ({
            let version_at: int = name@.len() as int + 2;
            let target_at: int = version_at + version@.len() + 13;
            let cpu_at: int = target_at + target@.len() + 2;
            let end: int = cpu_at + cpu@.len();
            &&& line@.len() == end + 1
            &&& line@.subrange(0, version_at - 2) == name@
            &&& line@.subrange(version_at - 2, version_at) == seq![' ', 'v']
            &&& line@.subrange(version_at, target_at - 13) == version@
            &&& line@.subrange(target_at - 13, target_at) == seq![
                ' ',
                '-',
                ' ',
                'b',
                'u',
                'i',
                'l',
                't',
                ' ',
                'f',
                'o',
                'r',
                ' ',
            ]
            &&& line@.subrange(target_at, cpu_at - 2) == target@
            &&& line@.subrange(cpu_at - 2, cpu_at) == seq![' ', '(']
            &&& line@.subrange(cpu_at, end) == cpu@
            &&& line@.subrange(end, end + 1) == seq![')']
        }),
{
    reveal_strlit(" v");
    reveal_strlit(" - built for ");
    reveal_strlit(" (");
    reveal_strlit(")");
    let version_at: int = name@.len() as int + 2;
    let target_at: int = version_at + version@.len() + 13;
    let cpu_at: int = target_at + target@.len() + 2;
    let end: int = cpu_at + cpu@.len();
    assert(line@.subrange(0, version_at - 2) =~= name@);
    assert(line@.subrange(version_at - 2, version_at) =~= seq![' ', 'v']);
    assert(line@.subrange(version_at, target_at - 13) =~= version@);
    assert(line@.subrange(target_at - 13, target_at) =~= " - built for "@);
    assert(line@.subrange(target_at - 13, target_at) =~= seq![
        ' ',
        '-',
        ' ',
        'b',
        'u',
        'i',
        'l',
        't',
        ' ',
        'f',
        'o',
        'r',
        ' ',
    ]);
    assert(line@.subrange(target_at, cpu_at - 2) =~= target@);
    assert(line@.subrange(cpu_at - 2, cpu_at) =~= seq![' ', '(']);
    assert(line@.subrange(cpu_at, end) =~= cpu@);
    assert(line@.subrange(end, end + 1) =~= seq![')']);
}

/// Where no processor is named, the line is that of a processor named "base cpu variant".
pub proof fn law_header_without_a_processor(
    name: &str,
    version: &str,
    target: &str,
    cpu: &str,
    line: String,
    named: String,
)
    requires
        cpu@ == "base cpu variant"@,
        call_ensures(header_line, (name, version, target, None::<&str>), line),
        call_ensures(header_line, (name, version, target, Some(cpu)), named),
    ensures
        line@ == named@,
{
}

} // verus!
