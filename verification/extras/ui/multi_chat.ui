<?xml version="1.0" encoding="UTF-8"?>
<interface>
  <requires lib="gtk" version="4.10"/>
  <object class="GtkBox" id="root">
    <property name="orientation">vertical</property>
    <property name="vexpand">true</property>
    <child>
      <object class="GtkOverlay">
        <property name="vexpand">true</property>
        <property name="hexpand">true</property>
        <property name="child">
          <object class="GtkScrolledWindow">
            <property name="vscrollbar-policy">never</property>
            <property name="hexpand">true</property>
            <property name="vexpand">true</property>
            <child><object class="GtkBox" id="panes_row">
              <property name="vexpand">true</property>
              <style><class name="multi-chat-panes-row"/></style>
            </object></child>
          </object>
        </property>
        <child type="overlay"><object class="GtkBox">
          <property name="valign">end</property>
          <property name="hexpand">true</property>
          <property name="can-target">false</property>
          <style><class name="multi-chat-bottom-base"/></style>
        </object></child>
        <child type="overlay"><object class="GtkBox" id="composer_holder">
          <property name="orientation">vertical</property>
          <property name="halign">center</property>
          <property name="valign">end</property>
          <style><class name="multi-chat-shared-composer"/></style>
        </object></child>
      </object>
    </child>
  </object>
  <object class="GtkBox" id="drop_slot">
    <property name="orientation">vertical</property>
    <style><class name="multi-chat-drop-slot"/></style>
    <child><object class="GtkLabel"><property name="label">Drop thread here</property></object></child>
  </object>
</interface>
