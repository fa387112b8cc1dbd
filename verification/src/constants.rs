//! Constants of the engine: the magic numbers of the two sliding pieces.
use vstd::prelude::*;

verus! {

/// The starting position in Forsyth-Edwards notation.
pub const DEFAULT_FEN_STRING: &'static str = "rnbqkbnr/pppppppp/8/8/8/8/PPPPPPPP/RNBQKBNR w KQkq - 0 1";

/// Magic number of the rook on each square.
pub const ROOK_MAGIC_NUMBERS: [u64; 64] = [
    0x6080008010400024,
    0x4040004020001008,
    0x208010002000800d,
    0x02000a0020100440,
    0x1080040002080080,
    0x1300040002080100,
    0x1080008002000100,
    0x4080008000402100,
    0x0010800080204001,
    0x0024804000200885,
    0x4030802000100080,
    0x4a04800800801000,
    0x8209000451008800,
    0x0041000204010008,
    0x0101000100040200,
    0x0002000100408402,
    0x0040808000400021,
    0x0110044020004001,
    0x2820010010410020,
    0x442c808010000800,
    0x1288008080040008,
    0x000d010008040002,
    0x0002008080020100,
    0x00c0020000804104,
    0x1000800080204000,
    0x0060088080204004,
    0x0020001010020400,
    0x0a0a001200200840,
    0x0008010100100804,
    0x1002001600240810,
    0x1400420400100138,
    0x0000004200240091,
    0x100080c001800020,
    0x00402010014000c4,
    0x1212084022001081,
    0x00001000a3000902,
    0x0020800800800400,
    0x0c00c02048011004,
    0x04c0800100800200,
    0x0008004582003401,
    0x0020204000808001,
    0x4210004020044000,
    0x2000200100110040,
    0x7008100021010008,
    0xa001000408010010,
    0x1500040002008080,
    0x0000c81001040002,
    0x0002010080420004,
    0x0000205100800100,
    0x2000400081002500,
    0x0000102080420200,
    0x0000080080100080,
    0x0205000800100500,
    0x0100040002008080,
    0x0400010288100400,
    0x5100040040810200,
    0x0402204010860102,
    0x0006810132084022,
    0x0042004288116082,
    0x4312006050880442,
    0x0411000208001005,
    0x0002000804011002,
    0x2400502118008204,
    0x5424190480402402,
];

/// Magic number of the bishop on each square.
pub const BISHOP_MAGIC_NUMBERS: [u64; 64] = [
    0x0004941428020210,
    0x04d0d08101002008,
    0x0048020402280800,
    0x0304105200002700,
    0xa028484000100080,
    0x0001100844000120,
    0x0100410420a00203,
    0x5001008804220200,
    0x508110214a0c1040,
    0x8600e24409560200,
    0x082104280a104000,
    0x20d020a100440042,
    0x0842020210008001,
    0x0009089220204420,
    0x0040084110101110,
    0x1428042884100810,
    0x0840000802040411,
    0x0005242001140501,
    0x00044022040c0080,
    0x0208054082810000,
    0x4109000290400000,
    0x416a400980504000,
    0x0088888308480228,
    0x400205110090a400,
    0x0020064190100200,
    0x105c202610028080,
    0x001a901002002200,
    0x0004040008010810,
    0x0081010004104004,
    0x4000810002004200,
    0x00010400106c0400,
    0x016082050d0f0091,
    0x5030220800604805,
    0x001201a000040811,
    0x2002022200100090,
    0x0008110800040040,
    0x0882020400220082,
    0x020c900100948090,
    0x0018280289110094,
    0x9274010050120048,
    0x0004012008009208,
    0xa004108804008814,
    0x0410601450000800,
    0x1210004200800800,
    0x0400502012011040,
    0x0020022040402200,
    0x0082900202000082,
    0x0002089401000291,
    0x040048182410b020,
    0x0182020082880100,
    0x0200814318210212,
    0x0380800020880208,
    0x8088006450540491,
    0x8000c10911110080,
    0x0010058108020008,
    0x0404010244010404,
    0x2014220210010884,
    0x000801010c82a000,
    0x0400000044140402,
    0x0000000800208801,
    0x00105b2044150401,
    0x0010024005080080,
    0x020120212c00a088,
    0x20c05240890a0084,
];

} // verus!
