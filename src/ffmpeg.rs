//! Argument lists of audio engine (ffmpeg) invocations.
use vstd::prelude::*;
use crate::text::{micros_text, micros_to_text};

verus! {

/// The text of each string.
pub open spec fn texts(v: Seq<String>) -> Seq<Seq<char>> {
    v.map_values(|s: String| s@)
}

/// The pieces joined with `sep` between neighbours.
pub open spec fn join(pieces: Seq<Seq<char>>, sep: Seq<char>) -> Seq<char>
    decreases pieces.len(),
{
    if pieces.len() == 0 {
        Seq::empty()
    } else if pieces.len() == 1 {
        pieces[0]
    } else {
        join(pieces.drop_last(), sep) + sep + pieces.last()
    }
}

/// The options that every invocation starts with, then `args`.
pub open spec fn engine_args(args: Seq<Seq<char>>) -> Seq<Seq<char>> {
    seq!["-loglevel"@, "verbose"@, "-y"@] + args
}

/// `-i path` for each input, in order.
pub open spec fn input_args(inputs: Seq<Seq<char>>) -> Seq<Seq<char>>
    decreases inputs.len(),
{
    if inputs.len() == 0 {
        Seq::empty()
    } else {
        input_args(inputs.drop_last()) + seq!["-i"@, inputs.last()]
    }
}

/// Joins the strings with `sep` between neighbours.
pub fn join_strings(pieces: &Vec<String>, sep: &str) -> (r: String)
    ensures
        r@ == join(texts(pieces@), sep@),
{
    let mut r = String::new();
    let mut i: usize = 0;
    while i < pieces.len()
        invariant
            0 <= i <= pieces@.len(),
            r@ == join(texts(pieces@.subrange(0, i as int)), sep@),
        decreases pieces@.len() - i,
    {
        proof {
            let pre = texts(pieces@.subrange(0, i as int));
            let next = texts(pieces@.subrange(0, i + 1));
            assert(next.drop_last() =~= pre);
            assert(next.last() == pieces@[i as int]@);
            if i == 0 {
                assert(next.len() == 1);
            }
        }
        if i > 0 {
            r.append(sep);
        }
        r.append(pieces[i].as_str());
        i += 1;
    }
    assert(pieces@.subrange(0, pieces@.len() as int) =~= pieces@);
    r
}

fn text_vec_push(v: &mut Vec<String>, s: &str)
    ensures
        texts(final(v)@) == texts(old(v)@).push(s@),
{
    v.push(String::from_str(s));
    assert(texts(v@) =~= texts(old(v)@).push(s@));
}

/// The full argument list of one engine invocation with `args`.
pub fn ffmpeg_args(args: Vec<String>) -> (r: Vec<String>)
    ensures
        texts(r@) == engine_args(texts(args@)),
{
    let mut r: Vec<String> = Vec::new();
    text_vec_push(&mut r, "-loglevel");
    text_vec_push(&mut r, "verbose");
    text_vec_push(&mut r, "-y");
    let mut i: usize = 0;
    while i < args.len()
        invariant
            0 <= i <= args@.len(),
            texts(r@) == seq!["-loglevel"@, "verbose"@, "-y"@] + texts(args@.subrange(0, i as int)),
        decreases args@.len() - i,
    {
        let ghost before = r@;
        r.push(args[i].clone());
        assert(texts(args@.subrange(0, i + 1)) =~= texts(args@.subrange(0, i as int)).push(
            args@[i as int]@,
        ));
        assert(texts(r@) =~= texts(before).push(args@[i as int]@));
        i += 1;
    }
    assert(args@.subrange(0, args@.len() as int) =~= args@);
    r
}

/// The invocation that feeds `inputs` through the filter graph `filters`
/// and writes its pad `[out]` to `output`.
pub fn ffmpeg_complex_filter(inputs: Vec<String>, output: &str, filters: Vec<String>) -> (r: Vec<
    String,
>)
    ensures
        texts(r@) == engine_args(
            input_args(texts(inputs@)) + seq![
                "-filter_complex"@,
                join(texts(filters@), ";"@),
                "-map"@,
                "[out]"@,
                output@,
            ],
        ),
{
    let mut args: Vec<String> = Vec::new();
    let mut i: usize = 0;
    while i < inputs.len()
        invariant
            0 <= i <= inputs@.len(),
            texts(args@) == input_args(texts(inputs@.subrange(0, i as int))),
        decreases inputs@.len() - i,
    {
        let ghost before = texts(args@);
        text_vec_push(&mut args, "-i");
        let ghost mid = texts(args@);
        args.push(inputs[i].clone());
        proof {
            assert(texts(args@) =~= mid.push(inputs@[i as int]@));
            let next = texts(inputs@.subrange(0, i + 1));
            assert(next.drop_last() =~= texts(inputs@.subrange(0, i as int)));
            assert(next.last() == inputs@[i as int]@);
            assert(texts(args@) =~= before + seq!["-i"@, inputs@[i as int]@]);
        }
        i += 1;
    }
    assert(inputs@.subrange(0, inputs@.len() as int) =~= inputs@);
    let ghost head = texts(args@);
    text_vec_push(&mut args, "-filter_complex");
    let joined = join_strings(&filters, ";");
    let ghost before = texts(args@);
    args.push(joined);
    assert(texts(args@) =~= before.push(joined@));
    text_vec_push(&mut args, "-map");
    text_vec_push(&mut args, "[out]");
    text_vec_push(&mut args, output);
    assert(texts(args@) =~= head + seq![
        "-filter_complex"@,
        join(texts(filters@), ";"@),
        "-map"@,
        "[out]"@,
        output@,
    ]);
    ffmpeg_args(args)
}

/// The invocation that joins the files listed in `file_list_path`, in
/// order and without re-encoding filters, into `out`.
pub fn concat_cmd(file_list_path: &str, out: &str) -> (r: Vec<String>)
    ensures
        texts(r@) == engine_args(seq!["-f"@, "concat"@, "-i"@, file_list_path@, out@]),
{
    let mut args: Vec<String> = Vec::new();
    text_vec_push(&mut args, "-f");
    text_vec_push(&mut args, "concat");
    text_vec_push(&mut args, "-i");
    text_vec_push(&mut args, file_list_path);
    text_vec_push(&mut args, out);
    assert(texts(args@) =~= seq!["-f"@, "concat"@, "-i"@, file_list_path@, out@]);
    ffmpeg_args(args)
}

/// The invocation that reads `a_path` between the times `a_range`
/// (microseconds), feeds it through `filters` and writes `out`.
pub fn slice_cmd(a_path: &str, filters: &Vec<String>, a_range: (i64, i64), out: &str) -> (r: Vec<
    String,
>)
    ensures
        texts(r@) == engine_args(
            seq![
                "-ss"@,
                micros_text(a_range.0 as int),
                "-to"@,
                micros_text(a_range.1 as int),
                "-i"@,
                a_path@,
                "-filter_complex"@,
                join(texts(filters@), ";"@),
                out@,
            ],
        ),
{
    let mut args: Vec<String> = Vec::new();
    text_vec_push(&mut args, "-ss");
    let from = micros_to_text(a_range.0);
    text_vec_push(&mut args, from.as_str());
    text_vec_push(&mut args, "-to");
    let to = micros_to_text(a_range.1);
    text_vec_push(&mut args, to.as_str());
    text_vec_push(&mut args, "-i");
    text_vec_push(&mut args, a_path);
    text_vec_push(&mut args, "-filter_complex");
    let joined = join_strings(filters, ";");
    text_vec_push(&mut args, joined.as_str());
    text_vec_push(&mut args, out);
    assert(texts(args@) =~= seq![
        "-ss"@,
        micros_text(a_range.0 as int),
        "-to"@,
        micros_text(a_range.1 as int),
        "-i"@,
        a_path@,
        "-filter_complex"@,
        join(texts(filters@), ";"@),
        out@,
    ]);
    ffmpeg_args(args)
}

} // verus!
