use render_backend::batch::{CompositeInfo, DrawCommand, DrawCommandInfo, Primitive};
use render_backend::builder::DrawCommandBuilder;
use render_backend::compile::NodeCompiler;
use render_backend::display::MixBlendMode;
use render_backend::geometry::{DeviceRect, DeviceSize};
use render_backend::ids::{BatchId, DisplayItemKey, ProgramId, RenderTargetIndex, TextureId};

const QUAD: ProgramId = ProgramId(1);
const GLYPH: ProgramId = ProgramId(2);

fn pixels() -> DeviceRect {
    DeviceRect { x: 1, y: 2, size: DeviceSize { width: 3, height: 4 } }
}

fn batch_command(target: u32, key: DisplayItemKey, id: u64) -> DrawCommand {
    DrawCommand {
        render_target: RenderTargetIndex(target),
        sort_key: key,
        info: DrawCommandInfo::Batch(BatchId(id)),
    }
}

#[test]
fn items_share_a_batch_while_they_can() {
    let mut builder = DrawCommandBuilder::new(QUAD, GLYPH, RenderTargetIndex(3));
    let k0 = DisplayItemKey::new(0, 0);
    let k1 = DisplayItemKey::new(0, 1);
    let k2 = DisplayItemKey::new(0, 2);
    {
        let batch = builder.add_draw_item(&k0, TextureId(5), TextureId(6), Primitive::Rectangles, true, BatchId(10));
        assert_eq!(batch.batch_id, BatchId(10));
        assert_eq!(batch.program_id, QUAD);
        assert_eq!(batch.sort_key, k0);
        batch.indices.push(7);
    }
    {
        let batch = builder.add_draw_item(&k1, TextureId(5), TextureId(6), Primitive::TriangleFan, true, BatchId(11));
        assert_eq!(batch.batch_id, BatchId(10));
        assert_eq!(batch.indices, vec![7]);
    }
    {
        let batch = builder.add_draw_item(&k2, TextureId(8), TextureId(9), Primitive::Glyphs, false, BatchId(12));
        assert_eq!(batch.batch_id, BatchId(12));
        assert_eq!(batch.program_id, GLYPH);
        assert_eq!(batch.color_texture_id, TextureId(8));
        assert_eq!(batch.mask_texture_id, TextureId(9));
        assert!(batch.vertices.is_empty());
    }
    let (batches, commands) = builder.finalize();
    assert_eq!(batches.iter().map(|b| b.batch_id.0).collect::<Vec<u64>>(), vec![10, 12]);
    assert_eq!(commands, vec![batch_command(3, k0, 10), batch_command(3, k2, 12)]);
}

#[test]
fn composites_flush_the_batch() {
    let mut builder = DrawCommandBuilder::new(QUAD, GLYPH, RenderTargetIndex(0));
    let k0 = DisplayItemKey::new(0, 0);
    let k1 = DisplayItemKey::new(1, 0);
    builder.add_draw_item(&k0, TextureId(5), TextureId(6), Primitive::Rectangles, false, BatchId(10));
    builder.add_composite_item(MixBlendMode::Screen, TextureId(4), pixels(), &k1);
    assert!(builder.current_batch.is_none());
    builder.add_composite_item(MixBlendMode::Hue, TextureId(4), pixels(), &k1);
    let (batches, commands) = builder.finalize();
    assert_eq!(batches.len(), 1);
    assert_eq!(commands.len(), 3);
    assert_eq!(commands[0], batch_command(0, k0, 10));
    assert_eq!(
        commands[1].info,
        DrawCommandInfo::Composite(CompositeInfo {
            blend_mode: MixBlendMode::Screen,
            rect: pixels(),
            color_texture_id: TextureId(4),
        })
    );
    assert_eq!(commands[1].sort_key, k1);
}

#[test]
fn an_empty_builder_draws_nothing() {
    let builder = DrawCommandBuilder::new(QUAD, GLYPH, RenderTargetIndex(0));
    let (batches, commands) = builder.finalize();
    assert!(batches.is_empty());
    assert!(commands.is_empty());
}

fn add(compiler: &mut NodeCompiler, target: u32, item: u32, id: u64) {
    let key = DisplayItemKey::new(0, item);
    let builder = compiler.builder(RenderTargetIndex(target));
    assert_eq!(builder.render_target_index, RenderTargetIndex(target));
    builder.add_draw_item(&key, TextureId(1), TextureId(1), Primitive::Rectangles, true, BatchId(id));
}

#[test]
fn flushing_splits_batches() {
    let mut compiler = NodeCompiler::new(QUAD, GLYPH);
    add(&mut compiler, 0, 0, 10);
    add(&mut compiler, 1, 1, 11);
    add(&mut compiler, 0, 2, 12);
    compiler.flush(RenderTargetIndex(0));
    add(&mut compiler, 0, 3, 13);
    let compiled = compiler.finish();
    assert_eq!(compiled.batches.iter().map(|b| b.batch_id.0).collect::<Vec<u64>>(), vec![10, 11, 13]);
    assert_eq!(
        compiled.commands,
        vec![
            batch_command(0, DisplayItemKey::new(0, 0), 10),
            batch_command(1, DisplayItemKey::new(0, 1), 11),
            batch_command(0, DisplayItemKey::new(0, 3), 13),
        ]
    );
}

#[test]
fn nothing_to_draw_compiles_to_nothing() {
    let compiled = NodeCompiler::new(QUAD, GLYPH).finish();
    assert!(compiled.batches.is_empty() && compiled.commands.is_empty() && compiled.matrix_maps.is_empty());
}

#[test]
fn flushing_an_unused_target_changes_nothing() {
    let mut compiler = NodeCompiler::new(QUAD, GLYPH);
    add(&mut compiler, 2, 0, 10);
    compiler.flush(RenderTargetIndex(0));
    assert_eq!(compiler.builders.len(), 1);
    compiler.flush(RenderTargetIndex(2));
    assert!(compiler.builders.is_empty());
    assert_eq!(compiler.compiled_node.batches.len(), 1);
}

#[test]
fn commands_of_a_target_keep_painting_order() {
    let mut compiler = NodeCompiler::new(QUAD, GLYPH);
    add(&mut compiler, 0, 0, 10);
    add(&mut compiler, 1, 1, 11);
    compiler.flush(RenderTargetIndex(0));
    add(&mut compiler, 1, 2, 12);
    compiler.flush(RenderTargetIndex(1));
    add(&mut compiler, 0, 3, 13);
    add(&mut compiler, 1, 4, 14);
    let compiled = compiler.finish();
    let keys = |target: u32| -> Vec<u32> {
        compiled
            .commands
            .iter()
            .filter(|command| command.render_target == RenderTargetIndex(target))
            .map(|command| command.sort_key.item_index.0)
            .collect()
    };
    assert_eq!(keys(0), vec![0, 3]);
    assert_eq!(keys(1), vec![1, 4]);
}

#[test]
fn batches_of_a_node_have_identifiers_of_their_own() {
    let mut compiler = NodeCompiler::new(QUAD, GLYPH);
    for (n, target) in [0, 1, 0, 2, 1, 0].iter().enumerate() {
        add(&mut compiler, *target, n as u32, 20 + n as u64);
        compiler.flush(RenderTargetIndex(n as u32 % 2));
    }
    let compiled = compiler.finish();
    let mut ids: Vec<u64> = compiled.batches.iter().map(|batch| batch.batch_id.0).collect();
    let count = ids.len();
    assert!(count > 1);
    ids.sort();
    ids.dedup();
    assert_eq!(ids.len(), count);
    assert!(ids.iter().all(|id| (20..26).contains(id)));
}
