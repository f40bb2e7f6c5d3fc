//! The resource script that embeds an application manifest.
use vstd::prelude::*;
use vstd::string::*;
use vstd::utf8::encode_utf8;

verus! {

/// Bytes with every backslash doubled, as string literals of resource scripts have
/// it.
pub open spec fn escaped(bytes: Seq<u8>) -> Seq<u8>
    decreases bytes.len(),
{
    if bytes.len() == 0 {
        Seq::empty()
    } else if bytes.last() == 92 {
        escaped(bytes.drop_last()).push(92).push(92)
    } else {
        escaped(bytes.drop_last()).push(bytes.last())
    }
}

/// The script that embeds the manifest at `path`.
pub open spec fn spec_resource_script(path: Seq<u8>) -> Seq<u8> {
    encode_utf8("#define RT_MANIFEST 24\n1 RT_MANIFEST \""@) + escaped(path) + encode_utf8("\"\n"@)
}

fn append_bytes(target: &mut Vec<u8>, bytes: &[u8])
    ensures
        final(target)@ == old(target)@ + bytes@,
{
    let mut i: usize = 0;
    proof {
        assert(target@ =~= old(target)@ + bytes@.take(0));
    }
    while i < bytes.len()
        invariant
            i <= bytes@.len(),
            target@ == old(target)@ + bytes@.take(i as int),
        decreases bytes@.len() - i,
    {
        target.push(bytes[i]);
        i = i + 1;
        proof {
            assert(target@ =~= old(target)@ + bytes@.take(i as int));
        }
    }
    proof {
        assert(bytes@.take(i as int) =~= bytes@);
    }
}

/// The script, in UTF-8, that embeds the manifest at `path`. The path is absolute:
/// one compiler resolves a resource file against the crate root it runs from,
/// another against a copy of the script elsewhere.
pub fn resource_script(path: &str) -> (result: Vec<u8>)
    ensures
        result@ == spec_resource_script(path.spec_bytes()),
{
    let mut result: Vec<u8> = Vec::new();
    append_bytes(&mut result, "#define RT_MANIFEST 24\n1 RT_MANIFEST \"".as_bytes());
    let ghost header = result@;
    let bytes = path.as_bytes();
    let mut i: usize = 0;
    proof {
        assert(header =~= encode_utf8("#define RT_MANIFEST 24\n1 RT_MANIFEST \""@));
        assert(result@ =~= header + escaped(bytes@.take(0)));
    }
    while i < bytes.len()
        invariant
            i <= bytes@.len(),
            result@ == header + escaped(bytes@.take(i as int)),
        decreases bytes@.len() - i,
    {
        if bytes[i] == 92 {
            result.push(92);
        }
        result.push(bytes[i]);
        proof {
            assert(bytes@.take(i + 1).drop_last() =~= bytes@.take(i as int));
        }
        i = i + 1;
        proof {
            assert(result@ =~= header + escaped(bytes@.take(i as int)));
        }
    }
    proof {
        assert(bytes@.take(i as int) =~= bytes@);
    }
    append_bytes(&mut result, "\"\n".as_bytes());
    result
}

} // verus!
